//! The log page: niri's messages from the journal, tried three ways in
//! turn, and `niri validate`. Running the commands stays outside; what to
//! run next and what to show is decided here.
use vstd::prelude::*;
use crate::text;
use crate::num;

verus! {

/// The `journalctl` command of attempt `attempt` (0: niri's own messages,
/// 1: the greetd unit, 2: a search for `niri`).
pub open spec fn spec_journal(limit: int, attempt: int) -> Seq<Seq<char>> {
    seq!["journalctl"@, "-b0"@, "--no-pager"@, "--no-hostname"@, "-o"@, "short-iso"@, "-n"@, num::dec(limit)] + if attempt
        == 0 {
        seq!["_COMM=niri"@]
    } else if attempt == 1 {
        seq!["-u"@, "greetd"@]
    } else {
        seq!["--grep=niri"@]
    }
}

/// What follows an attempt.
#[derive(Debug, PartialEq, Eq)]
pub enum LogsStep {
    /// Show this text.
    Done(String),
    /// Run this command as the next attempt.
    Run(Vec<String>),
}

/// What follows attempt `attempt`, whose output is `out` (none when it
/// failed or timed out): the first attempt counts only when it printed
/// more than white space; a later one counts whenever it ran; after the
/// last one there is nothing to show.
pub open spec fn spec_logs_step(limit: int, attempt: int, out: Option<Seq<char>>, step: LogsStep) -> bool {
    let done = match out {
        Some(o) => attempt != 0 || text::trim(o).len() > 0,
        None => false,
    };
    if done {
        step matches LogsStep::Done(t) && t@ == out->0
    } else if attempt >= 2 {
        step matches LogsStep::Done(t) && t@.len() == 0
    } else {
        step matches LogsStep::Run(c) && text::string_views(c@) == spec_journal(limit, attempt + 1)
    }
}

fn journal(limit: i64, attempt: usize) -> (r: Vec<String>)
    ensures
        text::string_views(r@) == spec_journal(limit as int, attempt as int),
{
    let n = text::string_of(&num::i64_to_chars(limit));
    let ns = n.as_str();
    let mut r = text::strings_of(&["journalctl", "-b0", "--no-pager", "--no-hostname", "-o", "short-iso", "-n", ns]);
    assert(["journalctl", "-b0", "--no-pager", "--no-hostname", "-o", "short-iso", "-n", ns]@.map_values(|s: &str| s@)
        =~= seq!["journalctl"@, "-b0"@, "--no-pager"@, "--no-hostname"@, "-o"@, "short-iso"@, "-n"@, num::dec(limit as int)]);
    let ghost r0 = text::string_views(r@);
    if attempt == 0 {
        r.push("_COMM=niri".to_string());
        assert(text::string_views(r@) =~= r0 + seq!["_COMM=niri"@]);
    } else if attempt == 1 {
        r.push("-u".to_string());
        r.push("greetd".to_string());
        assert(text::string_views(r@) =~= r0 + seq!["-u"@, "greetd"@]);
    } else {
        r.push("--grep=niri".to_string());
        assert(text::string_views(r@) =~= r0 + seq!["--grep=niri"@]);
    }
    r
}

/// The log page's services.
pub struct LogsService;

impl LogsService {
    /// The first command to run for the last `limit` messages of niri.
    pub fn niri_logs_start(limit: i64) -> (r: Vec<String>)
        ensures
            text::string_views(r@) == spec_journal(limit as int, 0),
    {
        journal(limit, 0)
    }

    /// What follows an attempt at niri's messages.
    pub fn niri_logs(limit: i64, attempt: usize, out: Option<&str>) -> (r: LogsStep)
        ensures
            spec_logs_step(limit as int, attempt as int, text::opt_view(out), r),
    {
        match out {
            Some(o) => {
                if attempt != 0 || text::trimmed(&text::chars_of(o)).len() > 0 {
                    return LogsStep::Done(o.to_string());
                }
            },
            None => {},
        }
        if attempt >= 2 {
            proof {
                reveal_strlit("");
            }
            return LogsStep::Done(String::new());
        }
        LogsStep::Run(journal(limit, attempt + 1))
    }

    /// The outcome of `niri validate`: when it ran, whether it succeeded
    /// and what it wrote to stderr; when it could not start, whether niri
    /// is missing and the error's text. A missing niri counts as valid.
    pub fn niri_validate(outcome: Result<(bool, &str), (bool, &str)>) -> (r: (bool, String))
        ensures
            match outcome {
                Ok((success, stderr)) => if success {
                    r.0 && r.1@.len() == 0
                } else {
                    !r.0 && r.1@ == text::trim(stderr@)
                },
                Err((not_found, msg)) => if not_found {
                    r.0 && r.1@.len() == 0
                } else {
                    !r.0 && r.1@ == msg@
                },
            },
    {
        match outcome {
            Ok((success, stderr)) => {
                let t = text::trimmed(&text::chars_of(stderr));
                if success {
                    (true, String::new())
                } else {
                    (false, text::string_of(&t))
                }
            },
            Err((not_found, msg)) => if not_found {
                (true, String::new())
            } else {
                (false, msg.to_string())
            },
        }
    }
}

} // verus!
