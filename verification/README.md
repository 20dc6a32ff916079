# churros

The services behind the ChurrOS settings: what the desktop's configuration
files hold and how to change them, which commands to run for the network,
sound, power, displays and updates, and how to read what those commands
print. The library decides; it neither reads files nor runs programs (it
does read and write JSON text with `serde_json` and unpack backup archives
with `tar` and `zstd`, on text and bytes already in memory).

- `src/` is the library, verified with Verus. Each function states what it
  returns in its contract, over models of the texts it reads (`Seq<char>`
  lines, JSON values as `JsonV`). The proof functions named `law_…` state
  what holds across functions, such as a setting reading back as written,
  or the network list naming each network once and in order.
  - `text`, `num`: lines, words, trimming, searching and numbers as `str` and
    `str::parse` treat them.
  - `backend`: Wi-Fi, Ethernet, Bluetooth and sound through their command
    line tools, the Waybar style sheet, JSON with comments, and which
    commands change the machine.
  - `services`: one module per page of the settings (theme, cursor, icons,
    wallpaper, lock screen, displays, keyboard shortcuts, window rules,
    notifications, launcher, power, updates, users, privacy, backups, logs,
    …), the settings document, and the KDL and INI editing they share.
  - `widgets`: the colour entry's check and normalisation, and the sidebar's
    search.
- `app/` is the desktop side: it reads and writes the files, runs the
  commands (with `CHURROS_DEV=1`, commands that would change the machine are
  only logged), reads the settings file's JSON with `serde_json`, writes backups with
  `tar` and `zstd`, and formats the few values that are floats.
- `tests/` runs the library on concrete inputs.
