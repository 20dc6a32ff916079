//! Backups of the desktop's configuration: the archive's members (a tar,
//! compressed with zstd or plain), which of them are restored where (paths
//! from the archive are kept inside their target directory), when there is
//! anything to export, and the defaults that a reset restores. Reading and
//! writing the files stays outside.
use vstd::prelude::*;
use crate::text;
use crate::services::settings::{self, Json};
use crate::services::gtk_settings::{path_join, join_path};

verus! {

// ---------------------------------------------------------------- paths

/// A relative path that stays inside the directory it is joined to: not
/// absolute, and no `..` component.
pub open spec fn is_safe_rel(rel: Seq<char>) -> bool {
    !(rel.len() > 0 && rel[0] == '/') && forall|i: int| 0 <= i < text::split(rel, '/').len() ==> #[trigger] text::split(
        rel,
        '/',
    )[i] != ".."@
}

/// `base` joined with `rel`, when `rel` stays inside it.
pub open spec fn spec_safe_join(base: Seq<char>, rel: Seq<char>) -> Option<Seq<char>> {
    if is_safe_rel(rel) {
        Some(path_join(base, rel))
    } else {
        None
    }
}

/// A safe join stays under its base: the joined path starts with the base,
/// followed by a `/` (unless the base is empty or ends with one), and what
/// follows is the relative path, which is not absolute and has no `..`.
pub proof fn law_safe_join_stays_under(base: Seq<char>, rel: Seq<char>)
    requires
        spec_safe_join(base, rel) is Some,
    ensures
        ({
            let t = spec_safe_join(base, rel).unwrap();
            &&& text::starts_with(t, base)
            &&& (base.len() > 0 && base.last() != '/') ==> t.len() > base.len() && t[base.len() as int] == '/'
            &&& text::ends_with(t, rel)
            &&& is_safe_rel(rel)
        }),
{
    reveal_strlit("/");
    let t = spec_safe_join(base, rel).unwrap();
    if base.len() == 0 {
        assert(t.take(0) =~= base);
        assert(t.skip(t.len() - rel.len()) =~= rel);
    } else if base.last() == '/' {
        assert(t.take(base.len() as int) =~= base);
        assert(t.skip(t.len() - rel.len()) =~= rel);
    } else {
        assert(t.take(base.len() as int) =~= base);
        assert(t.skip(t.len() - rel.len()) =~= rel);
        assert(t[base.len() as int] == '/');
    }
}

/// `s` without every `p` that starts it, one after the other
/// (`str::trim_start_matches`).
pub open spec fn strip_all(s: Seq<char>, p: Seq<char>) -> Seq<char>
    decreases s.len(),
{
    if p.len() > 0 && text::starts_with(s, p) {
        strip_all(s.skip(p.len() as int), p)
    } else {
        s
    }
}

/// The dotfile directories a backup holds.
pub open spec fn dotfile_names() -> Seq<Seq<char>> {
    seq!["niri"@, "foot"@, "fuzzel"@, "mako"@, "waybar"@]
}

/// Where each dotfile directory lives under a home directory.
pub open spec fn spec_dotfiles(home: Seq<char>) -> Seq<(Seq<char>, Seq<char>)> {
    dotfile_names().map_values(|n: Seq<char>| (n, path_join(path_join(home, ".config"@), n)))
}

/// What restoring one member of an archive does.
#[derive(Debug, PartialEq, Eq)]
pub enum ImportAction {
    /// Nothing: a directory of the settings, a path that would leave its
    /// directory, an unknown dotfile, or anything else.
    Skip,
    /// Make this directory.
    CreateDir(String),
    /// Write the member's data to this file (after making its directory).
    WriteFile(String),
}

pub open spec fn is_member_of(name: Seq<char>, top: Seq<char>) -> bool {
    text::starts_with(name, top + "/"@) || name == top
}

/// What restoring a member named `name` does, with the settings directory
/// `churros_dir` and the configuration directory `config_dir`.
pub open spec fn spec_import_action(name: Seq<char>, is_dir: bool, churros_dir: Seq<char>, config_dir: Seq<char>, a: ImportAction) -> bool {
    if text::starts_with(name, "churros/"@) {
        if is_dir {
            a == ImportAction::Skip
        } else {
            match spec_safe_join(churros_dir, strip_all(name, "churros/"@)) {
                Some(t) => a matches ImportAction::WriteFile(p) && p@ == t,
                None => a == ImportAction::Skip,
            }
        }
    } else if text::starts_with(name, "dotfiles/"@) {
        let after = name.skip(9);
        let df = text::before(after, '/');
        let rest = if text::index_of(after, '/') < after.len() { after.skip(text::index_of(after, '/') + 1 as int) } else { seq![] };
        let target_dir = path_join(config_dir, df);
        if !dotfile_names().contains(df) {
            a == ImportAction::Skip
        } else if is_dir {
            a matches ImportAction::CreateDir(p) && p@ == target_dir
        } else if rest.len() == 0 {
            a == ImportAction::Skip
        } else {
            match spec_safe_join(target_dir, rest) {
                Some(t) => a matches ImportAction::WriteFile(p) && p@ == t,
                None => a == ImportAction::Skip,
            }
        }
    } else {
        a == ImportAction::Skip
    }
}

pub open spec fn is_backup(names: Seq<Seq<char>>) -> bool {
    exists|i: int| 0 <= i < names.len() && (is_member_of(#[trigger] names[i], "churros"@) || is_member_of(names[i], "dotfiles"@))
}

/// Restoring a backup stays inside its targets: whatever an archive holds,
/// a file it writes is a safe relative path (not absolute, no `..`) joined
/// to the settings directory or to a known dotfile directory, and a
/// directory it makes is a known dotfile directory.
pub proof fn law_import_stays_inside(name: Seq<char>, is_dir: bool, churros_dir: Seq<char>, config_dir: Seq<char>, a: ImportAction)
    requires
        spec_import_action(name, is_dir, churros_dir, config_dir, a),
    ensures
        match a {
            ImportAction::WriteFile(p) => (exists|rel: Seq<char>| is_safe_rel(rel) && p@ == path_join(churros_dir, rel))
                || (exists|df: Seq<char>, rel: Seq<char>|
                dotfile_names().contains(df) && is_safe_rel(rel) && p@ == path_join(path_join(config_dir, df), rel)),
            ImportAction::CreateDir(p) => exists|df: Seq<char>| dotfile_names().contains(df) && p@ == path_join(config_dir, df),
            ImportAction::Skip => true,
        },
{
    if text::starts_with(name, "churros/"@) {
        if !is_dir {
            let rel = strip_all(name, "churros/"@);
            if is_safe_rel(rel) {
                assert(is_safe_rel(rel) && spec_safe_join(churros_dir, rel) == Some(path_join(churros_dir, rel)));
            }
        }
    } else if text::starts_with(name, "dotfiles/"@) {
        let after = name.skip(9);
        let df = text::before(after, '/');
        let rest = if text::index_of(after, '/') < after.len() { after.skip(text::index_of(after, '/') + 1 as int) } else { seq![] };
        if dotfile_names().contains(df) {
            if is_dir {
                assert(dotfile_names().contains(df) && path_join(config_dir, df) == path_join(config_dir, df));
            } else if rest.len() > 0 && is_safe_rel(rest) {
                assert(dotfile_names().contains(df) && is_safe_rel(rest));
            }
        }
    }
}

// ---------------------------------------------------------------- exec

fn safe_rel(rel: &Vec<char>) -> (r: bool)
    ensures
        r == is_safe_rel(rel@),
{
    if rel.len() > 0 && rel[0] == '/' {
        return false;
    }
    let parts = text::split_char(rel, '/');
    let ghost pv = text::views(parts@);
    let dots = text::lit("..");
    let mut i: usize = 0;
    while i < parts.len()
        invariant
            i <= parts.len(),
            pv == text::views(parts@),
            pv == text::split(rel@, '/'),
            dots@ == ".."@,
            forall|k: int| 0 <= k < i ==> #[trigger] pv[k] != ".."@,
        decreases parts.len() - i,
    {
        assert(parts@[i as int]@ == pv[i as int]);
        if text::same(&parts[i], &dots) {
            return false;
        }
        i += 1;
    }
    true
}

fn strip_all_of(s: &Vec<char>, p: &Vec<char>) -> (r: Vec<char>)
    ensures
        r@ == strip_all(s@, p@),
{
    if p.len() == 0 {
        return text::slice(s, 0, s.len());
    }
    let mut i: usize = 0;
    assert(s@.skip(0) =~= s@);
    while p.len() <= s.len() - i && text::matches_at(s, p, i)
        invariant
            i <= s.len(),
            p.len() > 0,
            strip_all(s@, p@) == strip_all(s@.skip(i as int), p@),
        decreases s.len() - i,
    {
        proof {
            assert(s@.skip(i as int).subrange(0, p.len() as int) =~= s@.subrange(i as int, i + p.len()));
            assert(s@.skip(i as int).skip(p.len() as int) =~= s@.skip(i + p.len()));
        }
        i += p.len();
    }
    proof {
        if p.len() <= s.len() - i {
            assert(s@.skip(i as int).subrange(0, p.len() as int) =~= s@.subrange(i as int, i + p.len()));
        }
    }
    let r = text::slice(s, i, s.len());
    assert(r@ =~= s@.skip(i as int));
    r
}

fn safe_join_of(base: &str, rel: &Vec<char>) -> (r: Option<String>)
    ensures
        match r {
            Some(t) => spec_safe_join(base@, rel@) == Some(t@),
            None => spec_safe_join(base@, rel@) is None,
        },
{
    if safe_rel(rel) {
        let rs = text::string_of(rel);
        Some(join_path(base, rs.as_str()))
    } else {
        None
    }
}

/// The backup page's services.
// ---------------------------------------------------------------- the archive

/// The bytes start with zstd's magic number (a compressed backup; else a
/// plain tar).
pub open spec fn zstd_bytes(raw: Seq<u8>) -> bool {
    raw.len() >= 4 && raw[0] == 0x28 && raw[1] == 0xB5 && raw[2] == 0x2F && raw[3] == 0xFD
}

/// The members that the tar crate reads from a tar: each one's path (as
/// lossy UTF-8, empty when it has none), whether it is a directory, and its
/// data (`None` when the tar cannot be read).
pub uninterp spec fn tar_members(tar: Seq<u8>) -> Option<Seq<(Seq<char>, bool, Seq<u8>)>>;

/// The members that the tar crate reads from zstd's stream decoder over the
/// bytes: as `tar_members`, the decoder reading only as far as the tar
/// needs (`None` when the stream or the tar cannot be read).
pub uninterp spec fn zstd_tar_members(raw: Seq<u8>) -> Option<Seq<(Seq<char>, bool, Seq<u8>)>>;

pub open spec fn member_views(m: Seq<(String, bool, Vec<u8>)>) -> Seq<(Seq<char>, bool, Seq<u8>)> {
    m.map_values(|x: (String, bool, Vec<u8>)| (x.0@, x.1, x.2@))
}

/// The members of a backup archive: of its tar, read through zstd's decoder
/// when the bytes are zstd's.
pub open spec fn archive_of(raw: Seq<u8>) -> Option<Seq<(Seq<char>, bool, Seq<u8>)>> {
    if zstd_bytes(raw) {
        zstd_tar_members(raw)
    } else {
        tar_members(raw)
    }
}

pub open spec fn member_names(ms: Seq<(Seq<char>, bool, Seq<u8>)>) -> Seq<Seq<char>> {
    ms.map_values(|m: (Seq<char>, bool, Seq<u8>)| m.0)
}

/// `tar::Archive::entries` over `zstd::stream::read::Decoder` on the bytes,
/// each entry as its path, whether its header says directory, and its data:
/// the contract names the result (`zstd_tar_members`); the error's message
/// is not stated.
#[verifier::external_body]
fn read_zstd_tar(raw: &[u8]) -> (r: Result<Vec<(String, bool, Vec<u8>)>, String>)
    ensures
        match r {
            Ok(m) => zstd_tar_members(raw@) == Some(member_views(m@)),
            Err(_) => zstd_tar_members(raw@) is None,
        },
{
    let mut archive = tar::Archive::new(zstd::stream::read::Decoder::new(raw).map_err(|e| e.to_string())?);
    let mut out = Vec::new();
    for entry in archive.entries().map_err(|e| e.to_string())? {
        let mut entry = entry.map_err(|e| e.to_string())?;
        let name = entry.path().map(|p| p.to_string_lossy().to_string()).unwrap_or_default();
        let is_dir = entry.header().entry_type().is_dir();
        let mut data = Vec::new();
        let _ = std::io::Read::read_to_end(&mut entry, &mut data);
        out.push((name, is_dir, data));
    }
    Ok(out)
}

/// `tar::Archive::entries` over the bytes, each entry as its path, whether
/// its header says directory, and its data: the contract names the result
/// (`tar_members`); the error's message is not stated.
#[verifier::external_body]
fn read_tar(tar: &[u8]) -> (r: Result<Vec<(String, bool, Vec<u8>)>, String>)
    ensures
        match r {
            Ok(m) => tar_members(tar@) == Some(member_views(m@)),
            Err(_) => tar_members(tar@) is None,
        },
{
    let mut archive = tar::Archive::new(tar);
    let mut out = Vec::new();
    for entry in archive.entries().map_err(|e| e.to_string())? {
        let mut entry = entry.map_err(|e| e.to_string())?;
        let name = entry.path().map(|p| p.to_string_lossy().to_string()).unwrap_or_default();
        let is_dir = entry.header().entry_type().is_dir();
        let mut data = Vec::new();
        let _ = std::io::Read::read_to_end(&mut entry, &mut data);
        out.push((name, is_dir, data));
    }
    Ok(out)
}

pub struct BackupService;

impl BackupService {
    /// `base` joined with `rel`, unless `rel` is absolute or has a `..`
    /// component.
    pub fn safe_join(base: &str, rel: &str) -> (r: Option<String>)
        ensures
            match r {
                Some(t) => spec_safe_join(base@, rel@) == Some(t@),
                None => spec_safe_join(base@, rel@) is None,
            },
    {
        safe_join_of(base, &text::chars_of(rel))
    }

    /// The dotfile directories of a backup and where they live.
    pub fn dotfiles(home: &str) -> (r: Vec<(String, String)>)
        ensures
            r@.map_values(|p: (String, String)| (p.0@, p.1@)) == spec_dotfiles(home@),
    {
        let config = join_path(home, ".config");
        let mut r: Vec<(String, String)> = Vec::new();
        r.push(("niri".to_string(), join_path(config.as_str(), "niri")));
        r.push(("foot".to_string(), join_path(config.as_str(), "foot")));
        r.push(("fuzzel".to_string(), join_path(config.as_str(), "fuzzel")));
        r.push(("mako".to_string(), join_path(config.as_str(), "mako")));
        r.push(("waybar".to_string(), join_path(config.as_str(), "waybar")));
        assert(r@.map_values(|p: (String, String)| (p.0@, p.1@)) =~= spec_dotfiles(home@));
        r
    }

    /// Whether there is anything to export: the settings directory, or any
    /// dotfile directory. The error when there is not.
    pub fn export_check(churros_dir_is_dir: bool, any_dotfile: bool) -> (r: Result<(), String>)
        ensures
            r is Ok <==> (churros_dir_is_dir || any_dotfile),
            r is Err ==> r->Err_0@ == "No hay configuracion que exportar"@,
    {
        if !churros_dir_is_dir && !any_dotfile {
            return Err("No hay configuracion que exportar".to_string());
        }
        Ok(())
    }

    /// Whether raw bytes start with the zstd magic number (a compressed
    /// backup; else a plain tar).
    pub fn is_zstd(raw: &[u8]) -> (r: bool)
        ensures
            r == (raw@.len() >= 4 && raw@[0] == 0x28 && raw@[1] == 0xB5 && raw@[2] == 0x2F && raw@[3] == 0xFD),
    {
        raw.len() >= 4 && raw[0] == 0x28 && raw[1] == 0xB5 && raw[2] == 0x2F && raw[3] == 0xFD
    }

    /// What restoring each member of an archive (name, whether it is a
    /// directory) does; an error when no member is a setting or a dotfile.
    pub fn import_from(members: &Vec<(String, bool)>, churros_dir: &str, config_dir: &str) -> (r: Result<Vec<ImportAction>, String>)
        ensures
            r is Ok <==> is_backup(members@.map_values(|m: (String, bool)| m.0@)),
            r is Err ==> r->Err_0@ == "El archivo no es un backup de ChurrOS"@,
            match r {
                Ok(acts) => acts.len() == members.len() && forall|i: int| 0 <= i < members.len() ==> spec_import_action(
                    #[trigger] members@[i].0@,
                    members@[i].1,
                    churros_dir@,
                    config_dir@,
                    acts@[i],
                ),
                Err(_) => true,
            },
    {
        let ghost names = members@.map_values(|m: (String, bool)| m.0@);
        let mut found = false;
        let mut i: usize = 0;
        let c1 = text::lit("churros/");
        let c0 = text::lit("churros");
        let d1 = text::lit("dotfiles/");
        let d0 = text::lit("dotfiles");
        proof {
            reveal_strlit("/");
            reveal_strlit("churros/");
            reveal_strlit("churros");
            reveal_strlit("dotfiles/");
            reveal_strlit("dotfiles");
            assert("churros"@ + "/"@ =~= "churros/"@);
            assert("dotfiles"@ + "/"@ =~= "dotfiles/"@);
        }
        while i < members.len()
            invariant
                i <= members.len(),
                names == members@.map_values(|m: (String, bool)| m.0@),
                c1@ == "churros/"@,
                c0@ == "churros"@,
                d1@ == "dotfiles/"@,
                d0@ == "dotfiles"@,
                "churros"@ + "/"@ == "churros/"@,
                "dotfiles"@ + "/"@ == "dotfiles/"@,
                found == exists|k: int| 0 <= k < i && (is_member_of(#[trigger] names[k], "churros"@) || is_member_of(
                    names[k],
                    "dotfiles"@,
                )),
            decreases members.len() - i,
        {
            let n = text::chars_of(members[i].0.as_str());
            assert(names[i as int] == n@);
            if text::has_prefix(&n, &c1) || text::same(&n, &c0) || text::has_prefix(&n, &d1) || text::same(&n, &d0) {
                found = true;
            }
            i += 1;
        }
        if !found {
            return Err("El archivo no es un backup de ChurrOS".to_string());
        }
        let mut acts: Vec<ImportAction> = Vec::new();
        let mut j: usize = 0;
        while j < members.len()
            invariant
                j <= members.len(),
                acts.len() == j,
                c1@ == "churros/"@,
                d1@ == "dotfiles/"@,
                forall|k: int| 0 <= k < j ==> spec_import_action(
                    #[trigger] members@[k].0@,
                    members@[k].1,
                    churros_dir@,
                    config_dir@,
                    acts@[k],
                ),
            decreases members.len() - j,
        {
            let a = import_action(&text::chars_of(members[j].0.as_str()), members[j].1, churros_dir, config_dir, &c1, &d1);
            acts.push(a);
            j += 1;
        }
        Ok(acts)
    }

    /// Reads a backup archive (zstd or plain tar) and says what restoring each
    /// member does, with the member's data: an error `Archivo invalido: …`
    /// when the archive cannot be read, and the error of `import_from` when
    /// no member is a setting or a dotfile.
    pub fn import_archive(raw: &[u8], churros_dir: &str, config_dir: &str) -> (r: Result<Vec<(ImportAction, Vec<u8>)>, String>)
        ensures
            match archive_of(raw@) {
                None => r is Err && text::starts_with(r->Err_0@, "Archivo invalido: "@),
                Some(ms) => match r {
                    Ok(acts) => is_backup(member_names(ms)) && acts.len() == ms.len() && forall|i: int|
                        0 <= i < ms.len() ==> spec_import_action(
                            #[trigger] ms[i].0,
                            ms[i].1,
                            churros_dir@,
                            config_dir@,
                            acts@[i].0,
                        ) && acts@[i].1@ == ms[i].2,
                    Err(e) => !is_backup(member_names(ms)) && e@ == "El archivo no es un backup de ChurrOS"@,
                },
            },
    {
        let read = if Self::is_zstd(raw) {
            read_zstd_tar(raw)
        } else {
            read_tar(raw)
        };
        let mut ms = match read {
            Ok(m) => m,
            Err(e) => {
                let mut msg = text::lit("Archivo invalido: ");
                text::append(&mut msg, &text::chars_of(e.as_str()));
                proof {
                    reveal_strlit("Archivo invalido: ");
                    assert(msg@.take("Archivo invalido: "@.len() as int) =~= "Archivo invalido: "@);
                }
                return Err(text::string_of(&msg));
            },
        };
        let ghost mv = member_views(ms@);
        assert(archive_of(raw@) == Some(mv));
        let mut names: Vec<(String, bool)> = Vec::new();
        let mut i: usize = 0;
        while i < ms.len()
            invariant
                i <= ms.len(),
                mv == member_views(ms@),
                names.len() == i,
                forall|k: int| 0 <= k < i ==> (#[trigger] names@[k]).0@ == mv[k].0 && names@[k].1 == mv[k].1,
            decreases ms.len() - i,
        {
            let n = text::string_of(&text::chars_of(ms[i].0.as_str()));
            names.push((n, ms[i].1));
            i += 1;
        }
        assert(names@.map_values(|m: (String, bool)| m.0@) =~= member_names(mv));
        let mut acts = match Self::import_from(&names, churros_dir, config_dir) {
            Ok(a) => a,
            Err(e) => {
                return Err(e);
            },
        };
        let ghost av = acts@;
        assert forall|k: int| 0 <= k < mv.len() implies spec_import_action(#[trigger] mv[k].0, mv[k].1, churros_dir@, config_dir@, av[k]) by {
            assert(names@[k].0@ == mv[k].0 && names@[k].1 == mv[k].1);
        }
        let mut out: Vec<(ImportAction, Vec<u8>)> = Vec::new();
        let ghost n = ms.len();
        while ms.len() > 0
            invariant
                n == mv.len(),
                acts.len() == ms.len(),
                out.len() + ms.len() == n,
                av.len() == n,
                member_views(ms@) == mv.skip(out.len() as int),
                acts@ == av.skip(out.len() as int),
                forall|k: int| 0 <= k < n ==> spec_import_action(#[trigger] mv[k].0, mv[k].1, churros_dir@, config_dir@, av[k]),
                forall|k: int| 0 <= k < out.len() ==> (#[trigger] out@[k]).0 == av[k] && out@[k].1@ == mv[k].2,
            decreases ms.len(),
        {
            let ghost k0 = out.len() as int;
            let m = ms.remove(0);
            let a = acts.remove(0);
            proof {
                assert(mv.skip(k0)[0] == mv[k0]);
                assert(av.skip(k0)[0] == av[k0]);
                assert(mv.skip(k0 + 1) =~= mv.skip(k0).drop_first());
                assert(av.skip(k0 + 1) =~= av.skip(k0).drop_first());
            }
            out.push((a, m.2));
            proof {
                assert(member_views(ms@) =~= mv.skip(out.len() as int));
            }
        }
        Ok(out)
    }

    /// The reset: an error when the defaults directory is missing.
    pub fn reset_to_defaults(defaults_dir_is_dir: bool) -> (r: Result<bool, String>)
        ensures
            r is Ok <==> defaults_dir_is_dir,
            r is Ok ==> r->Ok_0,
            r is Err ==> r->Err_0@ == "Defaults no encontrados: /usr/share/churros/defaults"@,
    {
        if !defaults_dir_is_dir {
            return Err("Defaults no encontrados: /usr/share/churros/defaults".to_string());
        }
        Ok(true)
    }

    /// The settings a reset writes.
    pub fn defaults() -> (r: Json)
        ensures
            r@ == settings::spec_defaults(),
    {
        settings::defaults()
    }

    /// The commands that make the bar, the notifications and the launcher
    /// reload their configuration.
    pub fn reload_services() -> (r: Vec<Vec<String>>)
        ensures
            r@.map_values(|c: Vec<String>| text::string_views(c@)) == seq![
                seq!["pkill"@, "-x"@, "-USR2"@, "waybar"@],
                seq!["makoctl"@, "reload"@],
                seq!["pkill"@, "-x"@, "fuzzel"@],
            ],
    {
        let a = text::strings_of(&["pkill", "-x", "-USR2", "waybar"]);
        let b = text::strings_of(&["makoctl", "reload"]);
        let c = text::strings_of(&["pkill", "-x", "fuzzel"]);
        assert(["pkill", "-x", "-USR2", "waybar"]@.map_values(|s: &str| s@) =~= seq!["pkill"@, "-x"@, "-USR2"@, "waybar"@]);
        assert(["makoctl", "reload"]@.map_values(|s: &str| s@) =~= seq!["makoctl"@, "reload"@]);
        assert(["pkill", "-x", "fuzzel"]@.map_values(|s: &str| s@) =~= seq!["pkill"@, "-x"@, "fuzzel"@]);
        let mut r: Vec<Vec<String>> = Vec::new();
        r.push(a);
        r.push(b);
        r.push(c);
        assert(r@.map_values(|c: Vec<String>| text::string_views(c@)) =~= seq![
            seq!["pkill"@, "-x"@, "-USR2"@, "waybar"@],
            seq!["makoctl"@, "reload"@],
            seq!["pkill"@, "-x"@, "fuzzel"@],
        ]);
        r
    }
}

fn known_dotfile(df: &Vec<char>) -> (r: bool)
    ensures
        r == dotfile_names().contains(df@),
{
    let r = text::same(df, &text::lit("niri")) || text::same(df, &text::lit("foot")) || text::same(df, &text::lit("fuzzel"))
        || text::same(df, &text::lit("mako")) || text::same(df, &text::lit("waybar"));
    proof {
        if r {
            if df@ == "niri"@ {
                assert(dotfile_names()[0] == df@);
            } else if df@ == "foot"@ {
                assert(dotfile_names()[1] == df@);
            } else if df@ == "fuzzel"@ {
                assert(dotfile_names()[2] == df@);
            } else if df@ == "mako"@ {
                assert(dotfile_names()[3] == df@);
            } else {
                assert(dotfile_names()[4] == df@);
            }
        } else if dotfile_names().contains(df@) {
            let k = choose|k: int| 0 <= k < dotfile_names().len() && dotfile_names()[k] == df@;
            assert(false);
        }
    }
    r
}

fn import_action(name: &Vec<char>, is_dir: bool, churros_dir: &str, config_dir: &str, c1: &Vec<char>, d1: &Vec<char>) -> (r: ImportAction)
    requires
        c1@ == "churros/"@,
        d1@ == "dotfiles/"@,
    ensures
        spec_import_action(name@, is_dir, churros_dir@, config_dir@, r),
{
    if text::has_prefix(name, c1) {
        if is_dir {
            return ImportAction::Skip;
        }
        let rel = strip_all_of(name, c1);
        return match safe_join_of(churros_dir, &rel) {
            Some(t) => ImportAction::WriteFile(t),
            None => ImportAction::Skip,
        };
    }
    if !text::has_prefix(name, d1) {
        return ImportAction::Skip;
    }
    proof {
        reveal_strlit("dotfiles/");
    }
    let after = text::slice(name, 9, name.len());
    assert(after@ =~= name@.skip(9));
    let df = text::cut_before(&after, '/');
    let k = text::find_char(&after, '/');
    let rest = if k < after.len() {
        let x = text::slice(&after, k + 1, after.len());
        assert(x@ =~= after@.skip(k + 1 as int));
        x
    } else {
        Vec::new()
    };
    let dfs = text::string_of(&df);
    let target_dir = join_path(config_dir, dfs.as_str());
    if !known_dotfile(&df) {
        return ImportAction::Skip;
    }
    if is_dir {
        return ImportAction::CreateDir(target_dir);
    }
    if rest.len() == 0 {
        return ImportAction::Skip;
    }
    match safe_join_of(target_dir.as_str(), &rest) {
        Some(t) => ImportAction::WriteFile(t),
        None => ImportAction::Skip,
    }
}

} // verus!
