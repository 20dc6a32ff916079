//! Updates of pacman and flatpak: the settings, the systemd timer's
//! schedule, and the reading of the package managers' output.
use vstd::prelude::*;
use crate::text;
use crate::services::settings::{get_bool, get_string, spec_get_bool, spec_get_string, spec_set, Json, JsonV};

verus! {

/// The systemd calendar of an update interval.
pub open spec fn spec_on_calendar(interval: Seq<char>) -> Seq<char> {
    if interval == "weekly"@ {
        "Mon *-*-* 04:00:00"@
    } else if interval == "monthly"@ {
        "*-*-01 04:00:00"@
    } else {
        "*-*-* 04:00:00"@
    }
}

/// The three intervals give three different schedules.
pub proof fn law_calendars_differ(a: Seq<char>, b: Seq<char>)
    requires
        a == "daily"@ || a == "weekly"@ || a == "monthly"@,
        b == "daily"@ || b == "weekly"@ || b == "monthly"@,
        a != b,
    ensures
        spec_on_calendar(a) != spec_on_calendar(b),
{
    reveal_strlit("daily");
    reveal_strlit("weekly");
    reveal_strlit("monthly");
    reveal_strlit("Mon *-*-* 04:00:00");
    reveal_strlit("*-*-01 04:00:00");
    reveal_strlit("*-*-* 04:00:00");
    assert("daily"@.len() == 5 && "weekly"@.len() == 6 && "monthly"@.len() == 7);
    assert("Mon *-*-* 04:00:00"@.len() == 18 && "*-*-01 04:00:00"@.len() == 15 && "*-*-* 04:00:00"@.len() == 14);
    assert(spec_on_calendar(a).len() != spec_on_calendar(b).len());
}

/// Every schedule fires at 04:00; only the weekly one names a weekday
/// (Monday), and only the monthly one is held to a day of the month, the
/// first.
pub proof fn law_calendar_shape(interval: Seq<char>)
    ensures
        text::ends_with(spec_on_calendar(interval), " 04:00:00"@),
        text::starts_with(spec_on_calendar(interval), "Mon "@) == (interval == "weekly"@),
        text::ends_with(spec_on_calendar(interval), "-01 04:00:00"@) == (interval == "monthly"@),
{
    reveal_strlit("weekly");
    reveal_strlit("monthly");
    reveal_strlit("Mon *-*-* 04:00:00");
    reveal_strlit("*-*-01 04:00:00");
    reveal_strlit("*-*-* 04:00:00");
    reveal_strlit(" 04:00:00");
    reveal_strlit("Mon ");
    reveal_strlit("-01 04:00:00");
    let c = spec_on_calendar(interval);
    assert("weekly"@.len() == 6 && "monthly"@.len() == 7);
    assert("Mon *-*-* 04:00:00"@.len() == 18 && "*-*-01 04:00:00"@.len() == 15 && "*-*-* 04:00:00"@.len() == 14);
    assert(" 04:00:00"@.len() == 9 && "Mon "@.len() == 4 && "-01 04:00:00"@.len() == 12);
    assert(c.skip(c.len() - 9) =~= " 04:00:00"@);
    if interval == "weekly"@ {
        assert(c.take(4) =~= "Mon "@);
        assert(c.skip(c.len() - 12)[1] != "-01 04:00:00"@[1]);
    } else if interval == "monthly"@ {
        assert(c.take(4)[0] != "Mon "@[0]);
        assert(c.skip(c.len() - 12) =~= "-01 04:00:00"@);
    } else {
        assert(c.take(4)[0] != "Mon "@[0]);
        assert(c.skip(c.len() - 12)[0] != "-01 04:00:00"@[0]);
    }
}

/// The lines of a package manager's output; `None` when it could not run.
pub open spec fn spec_update_list(out: Option<Seq<char>>) -> Option<Seq<Seq<char>>> {
    match out {
        Some(o) => Some(text::lines(o)),
        None => None,
    }
}

/// Automatic updates.
pub struct UpdateService;

impl UpdateService {
    /// Whether automatic updates are on (on by default).
    pub fn enabled(settings: &Json) -> (r: bool)
        ensures
            r == spec_get_bool(settings@, "updates.enabled"@, true),
    {
        get_bool(settings, "updates.enabled", true)
    }

    /// The settings with automatic updates set.
    pub fn set_enabled(settings: Json, enabled: bool) -> (r: Json)
        ensures
            r@ == spec_set(settings@, "updates.enabled"@, JsonV::Bool(enabled)),
    {
        crate::services::settings::set(settings, "updates.enabled", Json::Bool(enabled))
    }

    /// The update interval (`daily` by default).
    pub fn interval(settings: &Json) -> (r: String)
        ensures
            r@ == spec_get_string(settings@, "updates.interval"@, "daily"@),
    {
        get_string(settings, "updates.interval", "daily")
    }

    /// The settings with the update interval set.
    pub fn set_interval(settings: Json, interval: &str) -> (r: Json)
        ensures
            r@ == spec_set(settings@, "updates.interval"@, JsonV::Str(interval@)),
    {
        crate::services::settings::set(settings, "updates.interval", Json::Str(interval.to_string()))
    }

    /// The timer's `OnCalendar` for an interval.
    pub fn on_calendar(interval: &str) -> (r: &'static str)
        ensures
            r@ == spec_on_calendar(interval@),
    {
        let v = text::chars_of(interval);
        if text::same(&v, &text::lit("weekly")) {
            "Mon *-*-* 04:00:00"
        } else if text::same(&v, &text::lit("monthly")) {
            "*-*-01 04:00:00"
        } else {
            "*-*-* 04:00:00"
        }
    }

    /// The packages that `pacman -Qu` lists (its trimmed output; `None` when
    /// it could not run).
    pub fn check_pacman(out: Option<&str>) -> (r: Option<Vec<String>>)
        ensures
            match r {
                Some(v) => spec_update_list(crate::backend::bluetooth::opt_view(out)) == Some(text::string_views(v@)),
                None => out is None,
            },
    {
        lines_list(out)
    }

    /// The updates that `flatpak remote-ls --updates` lists.
    pub fn check_flatpak(out: Option<&str>) -> (r: Option<Vec<String>>)
        ensures
            match r {
                Some(v) => spec_update_list(crate::backend::bluetooth::opt_view(out)) == Some(text::string_views(v@)),
                None => out is None,
            },
    {
        lines_list(out)
    }
}

fn lines_list(out: Option<&str>) -> (r: Option<Vec<String>>)
    ensures
        match r {
            Some(v) => spec_update_list(crate::backend::bluetooth::opt_view(out)) == Some(text::string_views(v@)),
            None => out is None,
        },
{
    match out {
        None => None,
        Some(o) => {
            let ls = text::lines_of(o);
            let mut r: Vec<String> = Vec::new();
            let mut i: usize = 0;
            while i < ls.len()
                invariant
                    i <= ls.len(),
                    text::string_views(r@) == text::views(ls@).take(i as int),
                decreases ls.len() - i,
            {
                let ghost r0 = text::string_views(r@);
                r.push(text::string_of(&ls[i]));
                assert(text::string_views(r@) =~= r0.push(ls@[i as int]@));
                i += 1;
                assert(text::views(ls@).take(i as int) =~= r0.push(ls@[i - 1]@));
            }
            assert(text::views(ls@).take(i as int) =~= text::views(ls@));
            Some(r)
        },
    }

}

impl UpdateService {
    /// The timer's drop-in (`churros-update.timer.d/schedule.conf`) for an
    /// interval.
    pub fn timer_schedule(interval: &str) -> (r: String)
        ensures
            r@ == "[Timer]\nOnCalendar="@ + spec_on_calendar(interval@) + "\n"@,
    {
        let mut v = text::lit("[Timer]\nOnCalendar=");
        text::append(&mut v, &text::chars_of(Self::on_calendar(interval)));
        text::append(&mut v, &text::lit("\n"));
        text::string_of(&v)
    }

    /// The commands that apply the schedule: systemd reloaded, then the
    /// timer enabled or disabled with the setting.
    pub fn apply_timer_commands(enabled: bool) -> (r: Vec<Vec<String>>)
        ensures
            r@.map_values(|c: Vec<String>| text::string_views(c@)) == seq![
                seq!["systemctl"@, "--user"@, "daemon-reload"@],
                seq!["systemctl"@, "--user"@, if enabled { "enable"@ } else { "disable"@ }, "--now"@, "churros-update.timer"@],
            ],
    {
        let a = text::strings_of(&["systemctl", "--user", "daemon-reload"]);
        let w = if enabled { "enable" } else { "disable" };
        let b = text::strings_of(&["systemctl", "--user", w, "--now", "churros-update.timer"]);
        assert(["systemctl", "--user", "daemon-reload"]@.map_values(|s: &str| s@) =~= seq!["systemctl"@, "--user"@, "daemon-reload"@]);
        assert(["systemctl", "--user", w, "--now", "churros-update.timer"]@.map_values(|s: &str| s@) =~= seq![
            "systemctl"@,
            "--user"@,
            w@,
            "--now"@,
            "churros-update.timer"@,
        ]);
        let mut r: Vec<Vec<String>> = Vec::new();
        r.push(a);
        r.push(b);
        assert(r@.map_values(|c: Vec<String>| text::string_views(c@)) =~= seq![
            seq!["systemctl"@, "--user"@, "daemon-reload"@],
            seq!["systemctl"@, "--user"@, w@, "--now"@, "churros-update.timer"@],
        ]);
        r
    }

    /// Whether the timer has to be applied on start: updates on, and the
    /// timer not enabled yet (`systemctl --user is-enabled` failed).
    pub fn ensure_timer(enabled: bool, timer_enabled: bool) -> (r: bool)
        ensures
            r == (enabled && !timer_enabled),
    {
        enabled && !timer_enabled
    }

    /// The command that upgrades the system packages.
    pub fn update_pacman() -> (r: Vec<String>)
        ensures
            text::string_views(r@) == seq!["churros-pkexec"@, "pacman"@, "-Syu"@, "--noconfirm"@],
    {
        let r = text::strings_of(&["churros-pkexec", "pacman", "-Syu", "--noconfirm"]);
        assert(["churros-pkexec", "pacman", "-Syu", "--noconfirm"]@.map_values(|s: &str| s@) =~= seq![
            "churros-pkexec"@,
            "pacman"@,
            "-Syu"@,
            "--noconfirm"@,
        ]);
        r
    }

    /// The command that upgrades the flatpak applications.
    pub fn update_flatpak() -> (r: Vec<String>)
        ensures
            text::string_views(r@) == seq!["churros-pkexec"@, "flatpak"@, "update"@, "-y"@],
    {
        let r = text::strings_of(&["churros-pkexec", "flatpak", "update", "-y"]);
        assert(["churros-pkexec", "flatpak", "update", "-y"]@.map_values(|s: &str| s@) =~= seq![
            "churros-pkexec"@,
            "flatpak"@,
            "update"@,
            "-y"@,
        ]);
        r
    }

    /// The desktop notification of an update.
    pub fn notify(summary: &str, body: &str) -> (r: Vec<String>)
        ensures
            text::string_views(r@) == seq!["notify-send"@, "-a"@, "ChurrOS"@, summary@, body@],
    {
        let r = text::strings_of(&["notify-send", "-a", "ChurrOS", summary, body]);
        assert(["notify-send", "-a", "ChurrOS", summary, body]@.map_values(|s: &str| s@) =~= seq![
            "notify-send"@,
            "-a"@,
            "ChurrOS"@,
            summary@,
            body@,
        ]);
        r
    }
}

} // verus!
