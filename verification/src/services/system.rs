//! The system page: fixed facts, and what the kernel's files and `lspci`
//! say about the machine.
use vstd::prelude::*;
use crate::text;
use crate::num;

verus! {

/// The CPU model: the first line of `/proc/cpuinfo` from `i` on that starts
/// with `model name` and has a `:`, what follows it trimmed.
pub open spec fn cpu_from(ls: Seq<Seq<char>>, i: int) -> Option<Seq<char>>
    decreases ls.len() - i,
{
    if i < 0 || i >= ls.len() {
        None
    } else {
        let rest = ls[i].skip(10);
        if text::starts_with(ls[i], "model name"@) && text::index_of(rest, ':') < rest.len() {
            Some(text::trim(rest.skip(text::index_of(rest, ':') + 1 as int)))
        } else {
            cpu_from(ls, i + 1)
        }
    }
}

/// The memory size in KiB: the first word after `MemTotal:` on the first
/// such line where it reads as a number.
pub open spec fn mem_from(ls: Seq<Seq<char>>, i: int) -> Option<Seq<char>>
    decreases ls.len() - i,
{
    if i < 0 || i >= ls.len() {
        None
    } else {
        let w = text::words(ls[i].skip(9));
        if text::starts_with(ls[i], "MemTotal:"@) && w.len() > 0 && num::is_float_text(w[0]) {
            Some(w[0])
        } else {
            mem_from(ls, i + 1)
        }
    }
}

/// The graphics card: the first `lspci` line from `i` on that mentions
/// `VGA` or `3D` and has a `: `, what follows that.
pub open spec fn gpu_from(ls: Seq<Seq<char>>, i: int) -> Option<Seq<char>>
    decreases ls.len() - i,
{
    if i < 0 || i >= ls.len() {
        None
    } else {
        let l = ls[i];
        if (text::contains(l, "VGA"@) || text::contains(l, "3D"@)) && text::find(l, ": "@) is Some {
            Some(l.skip(text::find(l, ": "@)->0 + 2))
        } else {
            gpu_from(ls, i + 1)
        }
    }
}

/// A found value, or the fallback (also when the source could not be read).
pub open spec fn found_or(v: Option<Seq<char>>, fallback: Seq<char>) -> Seq<char> {
    match v {
        Some(x) => x,
        None => fallback,
    }
}

pub open spec fn trimmed_or(c: Option<Seq<char>>, fallback: Seq<char>) -> Seq<char> {
    match c {
        Some(t) => text::trim(t),
        None => fallback,
    }
}

fn trimmed_or_of(c: Option<&str>, fallback: &str) -> (r: String)
    ensures
        r@ == trimmed_or(text::opt_view(c), fallback@),
{
    match c {
        Some(t) => text::string_of(&text::trimmed(&text::chars_of(t))),
        None => fallback.to_string(),
    }
}

/// Facts about the running system shown on the "System" page.
pub struct SystemService;

impl SystemService {
    pub fn distro() -> (r: &'static str)
        ensures
            r@ == "ChurrOS"@,
    {
        "ChurrOS"
    }

    pub fn edition() -> (r: &'static str)
        ensures
            r@ == "Developer Preview"@,
    {
        "Developer Preview"
    }

    pub fn package_manager() -> (r: &'static str)
        ensures
            r@ == "Pacman"@,
    {
        "Pacman"
    }

    pub fn base() -> (r: &'static str)
        ensures
            r@ == "Arch Linux"@,
    {
        "Arch Linux"
    }

    /// The session: `XDG_CURRENT_DESKTOP`, or `Desconocida`.
    pub fn session(env: Option<&str>) -> (r: String)
        ensures
            r@ == found_or(text::opt_view(env), "Desconocida"@),
    {
        match env {
            Some(v) => v.to_string(),
            None => "Desconocida".to_string(),
        }
    }

    /// The user name: `USER`, or `Desconocido`.
    pub fn username(env: Option<&str>) -> (r: String)
        ensures
            r@ == found_or(text::opt_view(env), "Desconocido"@),
    {
        match env {
            Some(v) => v.to_string(),
            None => "Desconocido".to_string(),
        }
    }

    /// The host name from `/proc/sys/kernel/hostname` (its text when it
    /// could be read).
    pub fn hostname(content: Option<&str>) -> (r: String)
        ensures
            r@ == trimmed_or(text::opt_view(content), "Desconocido"@),
    {
        trimmed_or_of(content, "Desconocido")
    }

    /// The kernel release from `/proc/sys/kernel/osrelease`.
    pub fn kernel(content: Option<&str>) -> (r: String)
        ensures
            r@ == trimmed_or(text::opt_view(content), "Desconocido"@),
    {
        trimmed_or_of(content, "Desconocido")
    }

    /// The CPU model from `/proc/cpuinfo`.
    pub fn cpu(cpuinfo: Option<&str>) -> (r: String)
        ensures
            r@ == match text::opt_view(cpuinfo) {
                Some(c) => found_or(cpu_from(text::lines(c), 0), "Desconocido"@),
                None => "Desconocido"@,
            },
    {
        let c = match cpuinfo {
            Some(c) => c,
            None => {
                return "Desconocido".to_string();
            },
        };
        let ls = text::lines_of(c);
        let ghost lv = text::views(ls@);
        let p = text::lit("model name");
        proof {
            reveal_strlit("model name");
        }
        let mut i: usize = 0;
        while i < ls.len()
            invariant
                i <= ls.len(),
                lv == text::views(ls@),
                lv == text::lines(c@),
                p@ == "model name"@,
                p@.len() == 10,
                cpuinfo == Some(c),
                cpu_from(lv, 0) == cpu_from(lv, i as int),
            decreases ls.len() - i,
        {
            assert(ls@[i as int]@ == lv[i as int]);
            if text::has_prefix(&ls[i], &p) {
                let rest = text::slice(&ls[i], 10, ls[i].len());
                assert(rest@ =~= lv[i as int].skip(10));
                let k = text::find_char(&rest, ':');
                if k < rest.len() {
                    let v = text::slice(&rest, k + 1, rest.len());
                    assert(v@ =~= rest@.skip(k + 1 as int));
                    return text::string_of(&text::trimmed(&v));
                }
            }
            i += 1;
        }
        "Desconocido".to_string()
    }

    /// The memory size in KiB from `/proc/meminfo`, as text (none when it
    /// is not there).
    pub fn memory_kib(meminfo: Option<&str>) -> (r: Option<String>)
        ensures
            match r {
                Some(v) => text::opt_view(meminfo) is Some && mem_from(text::lines(text::opt_view(meminfo)->0), 0) == Some(v@),
                None => text::opt_view(meminfo) is None || mem_from(text::lines(text::opt_view(meminfo)->0), 0) is None,
            },
    {
        let c = match meminfo {
            Some(c) => c,
            None => {
                return None;
            },
        };
        let ls = text::lines_of(c);
        let ghost lv = text::views(ls@);
        let p = text::lit("MemTotal:");
        proof {
            reveal_strlit("MemTotal:");
        }
        let mut i: usize = 0;
        while i < ls.len()
            invariant
                i <= ls.len(),
                lv == text::views(ls@),
                lv == text::lines(c@),
                p@ == "MemTotal:"@,
                p@.len() == 9,
                meminfo == Some(c),
                mem_from(lv, 0) == mem_from(lv, i as int),
            decreases ls.len() - i,
        {
            assert(ls@[i as int]@ == lv[i as int]);
            if text::has_prefix(&ls[i], &p) {
                let rest = text::slice(&ls[i], 9, ls[i].len());
                assert(rest@ =~= lv[i as int].skip(9));
                let w = text::words_of(&rest);
                if w.len() > 0 {
                    assert(w@[0]@ == text::views(w@)[0]);
                    if num::float_text(&w[0]) {
                        return Some(text::string_of(&w[0]));
                    }
                }
            }
            i += 1;
        }
        None
    }

    /// The graphics card from what `lspci` printed.
    pub fn gpu(lspci: Option<&str>) -> (r: String)
        ensures
            r@ == match text::opt_view(lspci) {
                Some(c) => found_or(gpu_from(text::lines(c), 0), "Desconocida"@),
                None => "Desconocida"@,
            },
    {
        let c = match lspci {
            Some(c) => c,
            None => {
                return "Desconocida".to_string();
            },
        };
        let ls = text::lines_of(c);
        let ghost lv = text::views(ls@);
        let sep = text::lit(": ");
        proof {
            reveal_strlit(": ");
        }
        let mut i: usize = 0;
        while i < ls.len()
            invariant
                i <= ls.len(),
                lv == text::views(ls@),
                lv == text::lines(c@),
                sep@ == ": "@,
                sep@.len() == 2,
                lspci == Some(c),
                gpu_from(lv, 0) == gpu_from(lv, i as int),
            decreases ls.len() - i,
        {
            assert(ls@[i as int]@ == lv[i as int]);
            let l = &ls[i];
            if text::has(l, &text::lit("VGA")) || text::has(l, &text::lit("3D")) {
                match text::search(l, &sep) {
                    Some(k) => {
                        proof {
                            text::lemma_find_from_occurs(lv[i as int], sep@, 0);
                        }
                        assert(l@ == lv[i as int]);
                        assert(text::occurs_at(l@, sep@, k as int));
                        assert(k + 2 <= l.len());
                        let v = text::slice(l, k + 2, l.len());
                        assert(v@ =~= lv[i as int].skip(k + 2));
                        return text::string_of(&v);
                    },
                    None => {},
                }
            }
            i += 1;
        }
        "Desconocida".to_string()
    }
}

} // verus!
