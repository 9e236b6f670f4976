//! The manifest's data model.

use vstd::prelude::*;
use crate::text::{chars_of, same_chars, spells, to_upper, uppercase};

verus! {

/// A length of time, in whole milliseconds.
#[derive(Debug, Clone, Copy, PartialEq, Eq, Structural)]
pub struct TimeSpan {
    pub millis: u128,
}

impl TimeSpan {
    pub fn from_millis(n: u64) -> (r: TimeSpan)
        ensures
            r.millis == n,
    {
        TimeSpan { millis: n as u128 }
    }

    pub fn from_secs(n: u64) -> (r: TimeSpan)
        ensures
            r.millis == n * 1000,
    {
        TimeSpan { millis: (n as u128) * 1000 }
    }

    pub fn as_millis(&self) -> (r: u128)
        ensures
            r == self.millis,
    {
        self.millis
    }
}

/// The signal sent to a process group on reload.
#[derive(Debug, Clone, Copy, PartialEq, Eq, Structural)]
pub enum Signal {
    Hup,
    Int,
    Term,
    Kill,
    Usr1,
    Usr2,
}

/// How readiness of a long-running process is probed.
#[derive(Debug, Clone, PartialEq, Eq)]
pub enum ReadyProbe {
    Tcp { port: u16 },
    Http { port: u16, path: String, expected_status: Option<u16> },
    Exec { command: String },
}

/// The mathematical value of a [`ReadyProbe`].
pub enum ProbeModel {
    Tcp { port: u16 },
    Http { port: u16, path: Seq<char>, expected_status: Option<u16> },
    Exec { command: Seq<char> },
}

impl View for ReadyProbe {
    type V = ProbeModel;

    open spec fn view(&self) -> ProbeModel {
        match self {
            ReadyProbe::Tcp { port } => ProbeModel::Tcp { port: *port },
            ReadyProbe::Http { port, path, expected_status } => ProbeModel::Http {
                port: *port,
                path: path@,
                expected_status: *expected_status,
            },
            ReadyProbe::Exec { command } => ProbeModel::Exec { command: command@ },
        }
    }
}

/// A watch pattern; `exclude` is set by a leading `!`.
#[derive(Debug, Clone, PartialEq, Eq)]
pub struct GlobPattern {
    pub pattern: String,
    pub exclude: bool,
}

/// The mathematical value of a [`GlobPattern`].
pub struct PatternModel {
    pub pattern: Seq<char>,
    pub exclude: bool,
}

impl View for GlobPattern {
    type V = PatternModel;

    open spec fn view(&self) -> PatternModel {
        PatternModel { pattern: self.pattern@, exclude: self.exclude }
    }
}

/// The options of one process.
#[derive(Debug, Clone, PartialEq, Eq)]
pub struct ProcessOptions {
    pub after: Vec<String>,
    pub ready: Option<ReadyProbe>,
    pub signal: Signal,
    pub debounce: TimeSpan,
    pub dir: Option<String>,
    pub shutdown: TimeSpan,
}

/// The mathematical value of [`ProcessOptions`].
pub struct OptionsModel {
    pub after: Seq<Seq<char>>,
    pub ready: Option<ProbeModel>,
    pub signal: Signal,
    pub debounce: int,
    pub dir: Option<Seq<char>>,
    pub shutdown: int,
}

/// The names in `v`, each as its characters.
pub open spec fn names_view(v: Seq<String>) -> Seq<Seq<char>> {
    Seq::new(v.len(), |i: int| v[i]@)
}

impl View for ProcessOptions {
    type V = OptionsModel;

    open spec fn view(&self) -> OptionsModel {
        OptionsModel {
            after: names_view(self.after@),
            ready: match self.ready {
                Some(p) => Some(p@),
                None => None,
            },
            signal: self.signal,
            debounce: self.debounce.millis as int,
            dir: match self.dir {
                Some(d) => Some(d@),
                None => None,
            },
            shutdown: self.shutdown.millis as int,
        }
    }
}

/// The options of a process that states none: no dependencies, no probe,
/// reload by TERM, 500 ms of debounce, the base directory, 5 s of grace.
pub open spec fn default_options() -> OptionsModel {
    OptionsModel {
        after: Seq::empty(),
        ready: None,
        signal: Signal::Term,
        debounce: 500,
        dir: None,
        shutdown: 5000,
    }
}

impl Default for ProcessOptions {
    fn default() -> (r: ProcessOptions)
        ensures
            r@ == default_options(),
    {
        let r = ProcessOptions {
            after: Vec::new(),
            ready: None,
            signal: Signal::Term,
            debounce: TimeSpan::from_millis(500),
            dir: None,
            shutdown: TimeSpan::from_secs(5),
        };
        assert(r@.after =~= Seq::empty());
        r
    }
}

/// The values of the patterns in `v`.
pub open spec fn patterns_view(v: Seq<GlobPattern>) -> Seq<PatternModel> {
    Seq::new(v.len(), |i: int| v[i]@)
}

/// One process of the manifest.
#[derive(Debug, Clone, PartialEq, Eq)]
pub struct ProcessDef {
    pub name: String,
    pub watch_patterns: Vec<GlobPattern>,
    pub options: ProcessOptions,
    pub command: String,
    pub oneshot: bool,
}

/// The mathematical value of a [`ProcessDef`].
pub struct ProcessModel {
    pub name: Seq<char>,
    pub watch_patterns: Seq<PatternModel>,
    pub options: OptionsModel,
    pub command: Seq<char>,
    pub oneshot: bool,
}

impl View for ProcessDef {
    type V = ProcessModel;

    open spec fn view(&self) -> ProcessModel {
        ProcessModel {
            name: self.name@,
            watch_patterns: patterns_view(self.watch_patterns@),
            options: self.options@,
            command: self.command@,
            oneshot: self.oneshot,
        }
    }
}

/// The signal that the upper-case name `s` stands for, with or without the
/// prefix `SIG`.
pub open spec fn signal_named(s: Seq<char>) -> Option<Signal> {
    if s == "HUP"@ || s == "SIGHUP"@ {
        Some(Signal::Hup)
    } else if s == "INT"@ || s == "SIGINT"@ {
        Some(Signal::Int)
    } else if s == "TERM"@ || s == "SIGTERM"@ {
        Some(Signal::Term)
    } else if s == "KILL"@ || s == "SIGKILL"@ {
        Some(Signal::Kill)
    } else if s == "USR1"@ || s == "SIGUSR1"@ {
        Some(Signal::Usr1)
    } else if s == "USR2"@ || s == "SIGUSR2"@ {
        Some(Signal::Usr2)
    } else {
        None
    }
}

impl Signal {
    /// The signal that a name in upper case stands for.
    pub fn from_upper(name: &str) -> (r: Option<Signal>)
        ensures
            r == signal_named(name@),
    {
        let v = chars_of(name);
        if spells(&v, "HUP") || spells(&v, "SIGHUP") {
            Some(Signal::Hup)
        } else if spells(&v, "INT") || spells(&v, "SIGINT") {
            Some(Signal::Int)
        } else if spells(&v, "TERM") || spells(&v, "SIGTERM") {
            Some(Signal::Term)
        } else if spells(&v, "KILL") || spells(&v, "SIGKILL") {
            Some(Signal::Kill)
        } else if spells(&v, "USR1") || spells(&v, "SIGUSR1") {
            Some(Signal::Usr1)
        } else if spells(&v, "USR2") || spells(&v, "SIGUSR2") {
            Some(Signal::Usr2)
        } else {
            None
        }
    }

    /// The signal that a name stands for, in any case of letters.
    pub fn from_str(s: &str) -> (r: Option<Signal>)
        ensures
            r == signal_named(uppercase(s@)),
    {
        let upper = to_upper(s);
        Signal::from_upper(upper.as_str())
    }
}

/// The values of the processes in `v`.
pub open spec fn processes_view(v: Seq<ProcessDef>) -> Seq<ProcessModel> {
    Seq::new(v.len(), |i: int| v[i]@)
}

/// The mapping that a list of assignments makes; a later assignment to a
/// name replaces an earlier one.
pub open spec fn env_of(entries: Seq<(String, String)>) -> Map<Seq<char>, Seq<char>>
    decreases entries.len(),
{
    if entries.len() == 0 {
        Map::empty()
    } else {
        env_of(entries.drop_last()).insert(entries.last().0@, entries.last().1@)
    }
}

/// Environment assignments, in the order in which they were made.
#[derive(Debug, Clone, PartialEq, Eq)]
pub struct EnvMap {
    pub entries: Vec<(String, String)>,
}

impl View for EnvMap {
    type V = Map<Seq<char>, Seq<char>>;

    open spec fn view(&self) -> Map<Seq<char>, Seq<char>> {
        env_of(self.entries@)
    }
}

impl EnvMap {
    pub fn new() -> (r: EnvMap)
        ensures
            r@ == Map::<Seq<char>, Seq<char>>::empty(),
            r.entries@.len() == 0,
    {
        EnvMap { entries: Vec::new() }
    }

    /// Assigns `value` to `key`, replacing what `key` had.
    pub fn insert(&mut self, key: String, value: String)
        ensures
            final(self)@ == old(self)@.insert(key@, value@),
            final(self).entries@ == old(self).entries@.push((key, value)),
    {
        let ghost before = self.entries@;
        self.entries.push((key, value));
        assert(self.entries@.drop_last() =~= before);
    }

    /// The value assigned to `key`, if any.
    pub fn get(&self, key: &str) -> (r: Option<&String>)
        ensures
            match r {
                Some(v) => self@.contains_key(key@) && self@[key@] == v@,
                None => !self@.contains_key(key@),
            },
    {
        let wanted = chars_of(key);
        let mut i: usize = self.entries.len();
        assert(self.entries@.subrange(0, i as int) =~= self.entries@);
        while i > 0
            invariant
                i <= self.entries@.len(),
                wanted@ == key@,
                self@.contains_key(key@) == env_of(self.entries@.subrange(0, i as int)).contains_key(
                    key@,
                ),
                self@.contains_key(key@) ==> self@[key@] == env_of(
                    self.entries@.subrange(0, i as int),
                )[key@],
            decreases i,
        {
            let ghost prefix = self.entries@.subrange(0, i as int);
            assert(prefix.drop_last() =~= self.entries@.subrange(0, i - 1));
            assert(prefix.last() == self.entries@[i - 1]);
            let entry = &self.entries[i - 1];
            let name = chars_of(entry.0.as_str());
            if same_chars(&name, &wanted) {
                return Some(&entry.1);
            }
            i -= 1;
        }
        None
    }

    /// Whether nothing was assigned.
    pub fn is_empty(&self) -> (r: bool)
        ensures
            r == (self.entries@.len() == 0),
            r == (self@ == Map::<Seq<char>, Seq<char>>::empty()),
    {
        proof {
            if self.entries@.len() > 0 {
                assert(self@.contains_key(self.entries@.last().0@));
            }
        }
        self.entries.len() == 0
    }
}

/// A parsed manifest: the global environment and the processes in document
/// order.
#[derive(Debug, Clone, PartialEq, Eq)]
pub struct Procfile {
    pub global_env: EnvMap,
    pub processes: Vec<ProcessDef>,
}

/// The mathematical value of a [`Procfile`].
pub struct ProcfileModel {
    pub global_env: Map<Seq<char>, Seq<char>>,
    pub processes: Seq<ProcessModel>,
}

impl View for Procfile {
    type V = ProcfileModel;

    open spec fn view(&self) -> ProcfileModel {
        ProcfileModel { global_env: self.global_env@, processes: processes_view(self.processes@) }
    }
}

} // verus!
