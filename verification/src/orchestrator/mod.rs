//! The supervision of the processes of a manifest.

pub mod graph;
pub mod matcher;
pub mod scheduler;
pub mod supervisor;
pub mod watcher;

use vstd::prelude::*;
use crate::parser::ast::{Procfile, Signal, TimeSpan};
use crate::text::{chars_of, string_of};

verus! {

/// The manifest to run and the directory that its paths are relative to.
pub struct Orchestrator {
    pub procfile: Procfile,
    pub base_dir: String,
}

impl Orchestrator {
    pub fn new(procfile: Procfile, base_dir: String) -> (r: Orchestrator)
        ensures
            r.procfile == procfile,
            r.base_dir == base_dir,
    {
        Orchestrator { procfile, base_dir }
    }
}

/// How a child ended.
#[derive(Debug, Clone, Copy, PartialEq, Eq, Structural)]
pub enum ProcessStatus {
    Success,
    Failed(i32),
    Signaled(i32),
    Unknown,
}

/// The seconds to wait before a process that failed `failures` times in a
/// row is started again: none at first, then 1, 2, 4, 8, 16, and 32 from the
/// sixth failure on.
pub open spec fn backoff_secs(failures: nat) -> nat {
    if failures == 0 {
        0
    } else if failures == 1 {
        1
    } else if failures == 2 {
        2
    } else if failures == 3 {
        4
    } else if failures == 4 {
        8
    } else if failures == 5 {
        16
    } else {
        32
    }
}

/// The time to wait before a process that failed `failures` times in a row
/// is started again.
pub fn backoff_for_failures(failures: u32) -> (r: TimeSpan)
    ensures
        r.millis == backoff_secs(failures as nat) * 1000,
{
    if failures == 0 {
        TimeSpan::from_millis(0)
    } else {
        let steps: u32 = if failures - 1 < 5 {
            failures - 1
        } else {
            5
        };
        let mut secs: u64 = 1;
        let mut i: u32 = 0;
        while i < steps
            invariant
                i <= steps <= 5,
                secs == backoff_secs((i + 1) as nat),
            decreases steps - i,
        {
            secs = secs * 2;
            i += 1;
        }
        TimeSpan::from_secs(secs)
    }
}

/// The backoff doubles with each failure up to the sixth and never passes
/// 32 seconds.
pub proof fn lemma_backoff(n: nat)
    ensures
        backoff_secs(0) == 0,
        backoff_secs(n) <= 32,
        1 <= n <= 5 ==> backoff_secs(n + 1) == 2 * backoff_secs(n),
        n >= 6 ==> backoff_secs(n) == 32,
        backoff_secs(n) <= backoff_secs(n + 1),
{
}

/// The short name of a signal, as `kill` takes it.
pub fn signal_name_short(sig: Signal) -> (r: &'static str)
    ensures
        r@ == (match sig {
            Signal::Hup => "HUP"@,
            Signal::Int => "INT"@,
            Signal::Term => "TERM"@,
            Signal::Kill => "9"@,
            Signal::Usr1 => "USR1"@,
            Signal::Usr2 => "USR2"@,
        }),
{
    match sig {
        Signal::Hup => "HUP",
        Signal::Int => "INT",
        Signal::Term => "TERM",
        Signal::Kill => "9",
        Signal::Usr1 => "USR1",
        Signal::Usr2 => "USR2",
    }
}

impl ProcessStatus {
    /// The text of the status: `exit` and the code; the name of the signal,
    /// for the signals that have one here, else `signal` and its number;
    /// `exit ?` where nothing is known.
    pub open spec fn text(self) -> Seq<char> {
        match self {
            ProcessStatus::Success => "exit 0"@,
            ProcessStatus::Failed(code) => "exit "@ + crate::parser::number::int_text(code as int),
            ProcessStatus::Signaled(sig) => if sig == 1 {
                "SIGHUP"@
            } else if sig == 2 {
                "SIGINT"@
            } else if sig == 9 {
                "SIGKILL"@
            } else if sig == 15 {
                "SIGTERM"@
            } else if sig == 17 {
                "SIGCHLD"@
            } else if sig == 19 {
                "SIGSTOP"@
            } else {
                "signal "@ + crate::parser::number::int_text(sig as int)
            },
            ProcessStatus::Unknown => "exit ?"@,
        }
    }

    /// Writes the status out.
    pub fn to_string(&self) -> (r: String)
        ensures
            r@ == self.text(),
    {
        match *self {
            ProcessStatus::Success => string_of(&chars_of("exit 0")),
            ProcessStatus::Failed(code) => {
                let mut out = chars_of("exit ");
                let digits = crate::parser::number::signed_decimal(code);
                crate::text::append_chars(&mut out, &digits);
                string_of(&out)
            },
            ProcessStatus::Signaled(sig) => {
                if sig == 1 {
                    string_of(&chars_of("SIGHUP"))
                } else if sig == 2 {
                    string_of(&chars_of("SIGINT"))
                } else if sig == 9 {
                    string_of(&chars_of("SIGKILL"))
                } else if sig == 15 {
                    string_of(&chars_of("SIGTERM"))
                } else if sig == 17 {
                    string_of(&chars_of("SIGCHLD"))
                } else if sig == 19 {
                    string_of(&chars_of("SIGSTOP"))
                } else {
                    let mut out = chars_of("signal ");
                    let digits = crate::parser::number::signed_decimal(sig);
                    crate::text::append_chars(&mut out, &digits);
                    string_of(&out)
                }
            },
            ProcessStatus::Unknown => string_of(&chars_of("exit ?")),
        }
    }
}

} // verus!
