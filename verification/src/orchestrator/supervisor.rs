//! The decisions of the supervision loop. The loop itself spawns, signals,
//! probes and reads the clock; what it then does with each process is decided
//! here, from the state of the process and what was observed.

use vstd::prelude::*;
use crate::orchestrator::{backoff_for_failures, backoff_secs, signal_name_short, ProcessStatus};
use crate::output::ControlEvent;
use crate::parser::ast::{ProcessDef, Signal};
use crate::parser::number::{decimal, decimal_text};
use crate::text::append_chars;
use crate::text::{chars_of, string_of};

verus! {

/// The runtime state of one process of the manifest. Times are in
/// milliseconds on the supervisor's clock.
#[derive(Debug, Clone, PartialEq, Eq)]
pub struct ManagedProcess {
    /// The definition from the manifest.
    pub def: ProcessDef,
    /// The process group of the live child; none when not running.
    pub running: Option<i32>,
    /// Whether dependents may start.
    pub is_ready: bool,
    /// When probing of the current instance began.
    pub ready_probe_started: Option<u64>,
    /// When the probe was last checked.
    pub last_probe_check: Option<u64>,
    /// Whether the process was ever spawned.
    pub started: bool,
    /// Whether a reload is under way.
    pub reloading: bool,
    /// When the reload or shutdown signal was sent.
    pub reload_signal_sent: Option<u64>,
    /// The path whose change caused the reload.
    pub reload_path: Option<String>,
    /// How many times in a row the process ended unexpectedly.
    pub consecutive_failures: u32,
    /// When the current instance was spawned.
    pub last_start_time: Option<u64>,
    /// When the process is to be started again after a crash.
    pub scheduled_restart: Option<u64>,
    /// When the failure count was last lowered.
    pub last_backoff_decrease: Option<u64>,
}

/// A control message about a process.
#[derive(Debug, Clone, PartialEq, Eq)]
pub struct ControlLine {
    pub process: String,
    pub event: ControlEvent,
    pub message: String,
}

/// The mathematical value of a [`ControlLine`].
pub struct ControlModel {
    pub process: Seq<char>,
    pub event: ControlEvent,
    pub message: Seq<char>,
}

impl View for ControlLine {
    type V = ControlModel;

    open spec fn view(&self) -> ControlModel {
        ControlModel { process: self.process@, event: self.event, message: self.message@ }
    }
}

/// The time from `at` to `now`, in milliseconds; zero where `at` is later.
pub open spec fn since(at: u64, now: u64) -> int {
    if now >= at {
        now - at
    } else {
        0
    }
}

/// The time from `at` to `now`.
pub fn elapsed_since(at: u64, now: u64) -> (r: u64)
    ensures
        r == since(at, now),
{
    if now >= at {
        now - at
    } else {
        0
    }
}

/// `now + delay`, held at the largest time where it would pass it.
pub open spec fn later(now: u64, delay: int) -> u64 {
    if now + delay <= u64::MAX {
        (now + delay) as u64
    } else {
        u64::MAX
    }
}

/// The events and messages of a report.
pub open spec fn report_view(v: Seq<(ControlEvent, String)>) -> Seq<(ControlEvent, Seq<char>)> {
    Seq::new(v.len(), |i: int| (v[i].0, v[i].1@))
}

impl ManagedProcess {
    /// The state of a process that was never spawned: not running, not
    /// ready, no failure counted, nothing pending.
    pub open spec fn fresh(def: ProcessDef) -> ManagedProcess {
        ManagedProcess {
            def,
            running: None,
            is_ready: false,
            ready_probe_started: None,
            last_probe_check: None,
            started: false,
            reloading: false,
            reload_signal_sent: None,
            reload_path: None,
            consecutive_failures: 0,
            last_start_time: None,
            scheduled_restart: None,
            last_backoff_decrease: None,
        }
    }

    /// The state of a process that was never spawned.
    pub fn new(def: ProcessDef) -> (r: ManagedProcess)
        ensures
            r == Self::fresh(def),
    {
        ManagedProcess {
            def,
            running: None,
            is_ready: false,
            ready_probe_started: None,
            last_probe_check: None,
            started: false,
            reloading: false,
            reload_signal_sent: None,
            reload_path: None,
            consecutive_failures: 0,
            last_start_time: None,
            scheduled_restart: None,
            last_backoff_decrease: None,
        }
    }

    /// Whether a child of the process is alive.
    pub fn is_running(&self) -> (r: bool)
        ensures
            r == self.running.is_some(),
    {
        self.running.is_some()
    }

    /// The milliseconds to wait before the process is started again.
    pub fn calculate_backoff(&self) -> (r: u128)
        ensures
            r == backoff_secs(self.consecutive_failures as nat) * 1000,
    {
        backoff_for_failures(self.consecutive_failures).millis
    }

    /// Whether the process is ready the moment it starts: it is long-running
    /// and has no probe.
    pub open spec fn ready_on_start(&self) -> bool {
        !self.def.oneshot && self.def.options.ready.is_none()
    }

    /// Records that a child was spawned in the process group `pgid` at the
    /// time `now`. Gives whether the process is ready at once.
    pub fn mark_spawned(&mut self, pgid: i32, now: u64) -> (r: bool)
        ensures
            r == old(self).ready_on_start(),
            *final(self) == (ManagedProcess {
                running: Some(pgid),
                is_ready: old(self).ready_on_start(),
                started: true,
                last_start_time: Some(now),
                scheduled_restart: None,
                last_backoff_decrease: None,
                ..*old(self)
            }),
    {
        let ready = !self.def.oneshot && self.def.options.ready.is_none();
        self.running = Some(pgid);
        self.is_ready = ready;
        self.started = true;
        self.last_start_time = Some(now);
        self.scheduled_restart = None;
        self.last_backoff_decrease = None;
        ready
    }

    /// Whether the readiness of the process is still to be probed: it runs,
    /// is not ready, and has a probe.
    pub open spec fn awaits_probe(&self) -> bool {
        self.running.is_some() && !self.is_ready && self.def.options.ready.is_some()
    }

    /// Whether a check of the probe is due at `now`: none was made yet, or
    /// the last one was made at least the poll interval ago.
    pub open spec fn check_due(&self, now: u64) -> bool {
        match self.last_probe_check {
            Some(t) => since(t, now) >= 250,
            None => true,
        }
    }

    /// Decides whether the probe is to be checked at the time `now`, and
    /// keeps the books: probing begins with the first call, and a check that
    /// is due is recorded as made at `now`.
    pub fn probe_due(&mut self, now: u64) -> (r: bool)
        ensures
            r == (old(self).awaits_probe() && old(self).check_due(now)),
            *final(self) == (if !old(self).awaits_probe() {
                *old(self)
            } else {
                ManagedProcess {
                    ready_probe_started: if old(self).ready_probe_started.is_none() {
                        Some(now)
                    } else {
                        old(self).ready_probe_started
                    },
                    last_probe_check: if old(self).check_due(now) {
                        Some(now)
                    } else {
                        old(self).last_probe_check
                    },
                    ..*old(self)
                }
            }),
    {
        if self.running.is_none() || self.is_ready || self.def.options.ready.is_none() {
            return false;
        }
        if self.ready_probe_started.is_none() {
            self.ready_probe_started = Some(now);
        }
        let due = match self.last_probe_check {
            Some(t) => elapsed_since(t, now) >= 250,
            None => true,
        };
        if due {
            self.last_probe_check = Some(now);
        }
        due
    }

    /// How long the probe has been failing at `now`: the time since probing
    /// began; none where it has not begun.
    pub open spec fn probing_for(&self, now: u64) -> Option<int> {
        match self.ready_probe_started {
            Some(t) => Some(since(t, now)),
            None => None,
        }
    }

    /// Whether a failing probe that has run for `elapsed` milliseconds is
    /// reported as pending: from 5 s on, within the first 300 ms of every
    /// fifth second.
    pub open spec fn pending_reported(elapsed: int) -> bool {
        elapsed / 1000 >= 5 && (elapsed / 1000) % 5 == 0 && elapsed % 1000 < 300
    }

    /// The message of a probe still pending after `secs` seconds.
    pub open spec fn pending_message(secs: int) -> Seq<char> {
        "probe pending ("@ + decimal_text(secs as nat) + "s)"@
    }

    /// What a check of the probe at `now` is reported as, where `passed`
    /// says whether it passed: `Ready` once it passes; `TimedOut` once it has
    /// failed for 30 s; a pending notice now and then in between.
    pub open spec fn probe_report(&self, passed: bool, now: u64) -> Option<
        (ControlEvent, Seq<char>),
    > {
        if passed {
            Some((ControlEvent::Ready, "probe passed"@))
        } else {
            match self.probing_for(now) {
                None => None,
                Some(elapsed) => if elapsed >= 30000 {
                    Some((ControlEvent::TimedOut, "probe timed out after 30s (aborting)"@))
                } else if Self::pending_reported(elapsed) {
                    Some((ControlEvent::TimedOut, Self::pending_message(elapsed / 1000)))
                } else {
                    None
                },
            }
        }
    }

    /// Whether a check of the probe at `now` that did not pass aborts
    /// startup: probing has gone on for 30 s.
    pub open spec fn probe_aborts(&self, passed: bool, now: u64) -> bool {
        !passed && self.probing_for(now).is_some() && self.probing_for(now).unwrap() >= 30000
    }

    /// Takes in the result of a check of the probe made at `now`. Gives what
    /// to report, if anything, and whether startup is aborted. A probe that
    /// passes makes the process ready; passing and timing out both end the
    /// probing.
    pub fn probe_result(&mut self, passed: bool, now: u64) -> (r: (
        Option<(ControlEvent, String)>,
        bool,
    ))
        ensures
            match r.0 {
                Some((event, message)) => old(self).probe_report(passed, now) == Some(
                    (event, message@),
                ),
                None => old(self).probe_report(passed, now).is_none(),
            },
            r.1 == old(self).probe_aborts(passed, now),
            *final(self) == (ManagedProcess {
                is_ready: old(self).is_ready || passed,
                ready_probe_started: if passed || old(self).probe_aborts(passed, now) {
                    None
                } else {
                    old(self).ready_probe_started
                },
                ..*old(self)
            }),
    {
        if passed {
            self.is_ready = true;
            self.ready_probe_started = None;
            return (Some((ControlEvent::Ready, string_of(&chars_of("probe passed")))), false);
        }
        match self.ready_probe_started {
            None => (None, false),
            Some(t) => {
                let elapsed = elapsed_since(t, now);
                if elapsed >= 30000 {
                    self.ready_probe_started = None;
                    (
                        Some(
                            (
                                ControlEvent::TimedOut,
                                string_of(&chars_of("probe timed out after 30s (aborting)")),
                            ),
                        ),
                        true,
                    )
                } else {
                    let secs = elapsed / 1000;
                    if secs >= 5 && secs % 5 == 0 && elapsed % 1000 < 300 {
                        let mut text = chars_of("probe pending (");
                        let digits = decimal(secs);
                        append_chars(&mut text, &digits);
                        let end = chars_of("s)");
                        append_chars(&mut text, &end);
                        (Some((ControlEvent::TimedOut, string_of(&text))), false)
                    } else {
                        (None, false)
                    }
                }
            },
        }
    }

    /// The time from which a stable run is counted at `now`: the last time
    /// the failure count was lowered; else the start of the instance; else
    /// `now`.
    pub open spec fn stable_since(&self, now: u64) -> u64 {
        match self.last_backoff_decrease {
            Some(t) => t,
            None => match self.last_start_time {
                Some(t) => t,
                None => now,
            },
        }
    }

    /// Whether the failure count is lowered at `now`: the process runs, has
    /// failures on its count, and has run stably for its current backoff.
    pub open spec fn relaxes(&self, now: u64) -> bool {
        self.running.is_some() && self.consecutive_failures > 0 && since(
            self.stable_since(now),
            now,
        ) >= backoff_secs(self.consecutive_failures as nat) * 1000
    }

    /// Lowers the failure count by one where the process has run stably for
    /// its current backoff.
    pub fn relax_backoff(&mut self, now: u64)
        ensures
            *final(self) == (if old(self).relaxes(now) {
                ManagedProcess {
                    consecutive_failures: (old(self).consecutive_failures - 1) as u32,
                    last_backoff_decrease: Some(now),
                    ..*old(self)
                }
            } else {
                *old(self)
            }),
    {
        if self.running.is_some() && self.consecutive_failures > 0 {
            let backoff = self.calculate_backoff();
            let reference = match self.last_backoff_decrease {
                Some(t) => t,
                None => match self.last_start_time {
                    Some(t) => t,
                    None => now,
                },
            };
            if elapsed_since(reference, now) as u128 >= backoff {
                self.consecutive_failures = self.consecutive_failures - 1;
                self.last_backoff_decrease = Some(now);
            }
        }
    }

    /// Whether the exit makes the process ready: a one-shot that was not yet
    /// ready left successfully.
    pub open spec fn exit_makes_ready(&self, status: ProcessStatus) -> bool {
        self.def.oneshot && status == ProcessStatus::Success && !self.is_ready
    }

    /// Whether the exit aborts startup: a one-shot failed while the
    /// supervisor was not shutting down.
    pub open spec fn exit_aborts(&self, status: ProcessStatus, shutting_down: bool) -> bool {
        self.def.oneshot && status != ProcessStatus::Success && !shutting_down
    }

    /// Whether the exit completes a reload, so that the process is spawned
    /// again at once.
    pub open spec fn exit_respawns(&self, status: ProcessStatus, shutting_down: bool) -> bool {
        self.reloading && !shutting_down && !self.exit_aborts(status, shutting_down)
    }

    /// Whether the exit is a crash of a long-running process, to be
    /// recovered from after a backoff.
    pub open spec fn exit_crashes(&self, status: ProcessStatus, shutting_down: bool) -> bool {
        !self.reloading && !shutting_down && !self.def.oneshot
    }

    /// The failure count after one more failure.
    pub open spec fn failures_after_crash(&self) -> u32 {
        if self.consecutive_failures < u32::MAX {
            (self.consecutive_failures + 1) as u32
        } else {
            u32::MAX
        }
    }

    /// The path that a completed reload reports.
    pub open spec fn reloaded_path(&self) -> Seq<char> {
        match self.reload_path {
            Some(p) => p@,
            None => Seq::empty(),
        }
    }

    /// What is reported about the exit, in order.
    pub open spec fn exit_report(&self, status: ProcessStatus, shutting_down: bool) -> Seq<
        (ControlEvent, Seq<char>),
    > {
        let first: Seq<(ControlEvent, Seq<char>)> = if self.exit_makes_ready(status) {
            seq![(ControlEvent::Ready, "exited successfully"@)]
        } else if self.exit_aborts(status, shutting_down) {
            seq![(ControlEvent::Crashed, status.text() + " (aborting)"@)]
        } else {
            Seq::empty()
        };
        let second: Seq<(ControlEvent, Seq<char>)> = if self.exit_respawns(
            status,
            shutting_down,
        ) {
            seq![(ControlEvent::Restarting, self.reloaded_path())]
        } else if self.exit_crashes(status, shutting_down) {
            seq![
                (
                    ControlEvent::Crashed,
                    if status == ProcessStatus::Success {
                        status.text() + " (unexpectedly)"@
                    } else {
                        status.text()
                    },
                ),
                (
                    ControlEvent::Restarting,
                    "in "@ + decimal_text(backoff_secs(self.failures_after_crash() as nat)) + "s"@,
                ),
            ]
        } else if !self.exit_makes_ready(status) && !self.exit_aborts(status, shutting_down) {
            seq![
                (
                    if status == ProcessStatus::Success {
                        ControlEvent::Finished
                    } else {
                        ControlEvent::Stopped
                    },
                    status.text(),
                ),
            ]
        } else {
            Seq::empty()
        };
        first + second
    }

    /// The state of the process after its child left with `status` at `now`.
    pub open spec fn after_exit(&self, status: ProcessStatus, shutting_down: bool, now: u64)
        -> ManagedProcess {
        let ready = self.is_ready || self.exit_makes_ready(status);
        if self.exit_respawns(status, shutting_down) {
            ManagedProcess {
                running: None,
                is_ready: ready,
                reloading: false,
                reload_signal_sent: None,
                reload_path: None,
                consecutive_failures: 0,
                ..*self
            }
        } else if self.exit_crashes(status, shutting_down) {
            ManagedProcess {
                running: None,
                is_ready: ready,
                consecutive_failures: self.failures_after_crash(),
                scheduled_restart: Some(
                    later(now, (backoff_secs(self.failures_after_crash() as nat) * 1000) as int),
                ),
                ..*self
            }
        } else {
            ManagedProcess { running: None, is_ready: ready, ..*self }
        }
    }

    /// Takes in the exit of the child with `status` at `now`. Gives what to
    /// report, whether startup is aborted, and whether the process is to be
    /// spawned again at once.
    pub fn on_exit(&mut self, status: ProcessStatus, shutting_down: bool, now: u64) -> (r: (
        Vec<(ControlEvent, String)>,
        bool,
        bool,
    ))
        ensures
            report_view(r.0@) == old(self).exit_report(status, shutting_down),
            r.1 == old(self).exit_aborts(status, shutting_down),
            r.2 == old(self).exit_respawns(status, shutting_down),
            *final(self) == old(self).after_exit(status, shutting_down, now),
    {
        let mut lines: Vec<(ControlEvent, String)> = Vec::new();
        let success = match status {
            ProcessStatus::Success => true,
            _ => false,
        };
        let makes_ready = self.def.oneshot && success && !self.is_ready;
        let aborts = self.def.oneshot && !success && !shutting_down;
        let status_text = chars_of(status.to_string().as_str());
        assert(report_view(lines@) =~= Seq::empty());
        if makes_ready {
            self.is_ready = true;
            lines.push((ControlEvent::Ready, string_of(&chars_of("exited successfully"))));
        } else if aborts {
            let mut text = chars_of(status.to_string().as_str());
            let tail = chars_of(" (aborting)");
            append_chars(&mut text, &tail);
            lines.push((ControlEvent::Crashed, string_of(&text)));
        }
        let ghost first = report_view(lines@);
        self.running = None;
        if self.reloading && !shutting_down && !aborts {
            let path: Vec<char> = match &self.reload_path {
                Some(p) => chars_of(p.as_str()),
                None => {
                    let empty: Vec<char> = Vec::new();
                    assert(empty@ =~= Seq::empty());
                    empty
                },
            };
            self.reload_path = None;
            self.reloading = false;
            self.reload_signal_sent = None;
            self.consecutive_failures = 0;
            lines.push((ControlEvent::Restarting, string_of(&path)));
            assert(report_view(lines@) =~= old(self).exit_report(status, shutting_down));
            (lines, aborts, true)
        } else if !self.reloading && !shutting_down && !self.def.oneshot {
            if self.consecutive_failures < u32::MAX {
                self.consecutive_failures = self.consecutive_failures + 1;
            }
            let backoff = self.calculate_backoff();
            let delay: u64 = backoff as u64;
            self.scheduled_restart = Some(
                if now <= u64::MAX - delay {
                    now + delay
                } else {
                    u64::MAX
                },
            );
            let mut detail = chars_of(status.to_string().as_str());
            if success {
                let tail = chars_of(" (unexpectedly)");
                append_chars(&mut detail, &tail);
            }
            lines.push((ControlEvent::Crashed, string_of(&detail)));
            let mut text = chars_of("in ");
            let digits = decimal(delay / 1000);
            append_chars(&mut text, &digits);
            let end = chars_of("s");
            append_chars(&mut text, &end);
            lines.push((ControlEvent::Restarting, string_of(&text)));
            assert(report_view(lines@) =~= old(self).exit_report(status, shutting_down));
            (lines, aborts, false)
        } else {
            if !makes_ready && !aborts {
                let event = if success {
                    ControlEvent::Finished
                } else {
                    ControlEvent::Stopped
                };
                lines.push((event, string_of(&status_text)));
            }
            assert(report_view(lines@) =~= old(self).exit_report(status, shutting_down));
            (lines, aborts, false)
        }
    }

    /// The message that reports a signal sent to the process: `kill -` and
    /// the short name of the signal.
    pub open spec fn kill_message(sig: Signal) -> Seq<char> {
        "kill -"@ + (match sig {
            Signal::Hup => "HUP"@,
            Signal::Int => "INT"@,
            Signal::Term => "TERM"@,
            Signal::Kill => "9"@,
            Signal::Usr1 => "USR1"@,
            Signal::Usr2 => "USR2"@,
        })
    }

    fn kill_text(sig: Signal) -> (r: String)
        ensures
            r@ == Self::kill_message(sig),
    {
        let mut text = chars_of("kill -");
        let name = chars_of(signal_name_short(sig));
        append_chars(&mut text, &name);
        string_of(&text)
    }

    /// Whether a change of a watched file reloads the process: it runs and
    /// no reload is under way.
    pub open spec fn reloads(&self) -> bool {
        self.running.is_some() && !self.reloading
    }

    /// Begins a reload because `path` changed, at the time `now`. Gives the
    /// process group to signal, the signal, and the message to report; none
    /// where the process does not reload, and then nothing changes.
    pub fn begin_reload(&mut self, path: &str, now: u64) -> (r: Option<(i32, Signal, String)>)
        ensures
            match r {
                Some((pgid, sig, message)) => old(self).reloads() && old(self).running == Some(
                    pgid,
                ) && sig == old(self).def.options.signal && message@ == Self::kill_message(sig)
                    && final(self).reload_path.is_some() && final(self).reload_path.unwrap()@
                    == path@ && *final(self) == (ManagedProcess {
                    reloading: true,
                    reload_signal_sent: Some(now),
                    reload_path: final(self).reload_path,
                    ..*old(self)
                }),
                None => !old(self).reloads() && *final(self) == *old(self),
            },
    {
        match self.running {
            Some(pgid) => {
                if self.reloading {
                    return None;
                }
                self.reloading = true;
                self.reload_signal_sent = Some(now);
                self.reload_path = Some(string_of(&chars_of(path)));
                let sig = self.def.options.signal;
                Some((pgid, sig, Self::kill_text(sig)))
            },
            None => None,
        }
    }

    /// Whether the process is killed at `now`: it runs, a signal was sent to
    /// it, and its grace period has passed since.
    pub open spec fn overdue(&self, now: u64) -> bool {
        self.running.is_some() && self.reload_signal_sent.is_some() && since(
            self.reload_signal_sent.unwrap(),
            now,
        ) >= self.def.options.shutdown.millis
    }

    /// Gives the process group to kill where the process has outlived its
    /// grace period, and forgets the signal, so that it is killed once.
    pub fn kill_if_overdue(&mut self, now: u64) -> (r: Option<i32>)
        ensures
            match r {
                Some(pgid) => old(self).overdue(now) && old(self).running == Some(pgid)
                    && *final(self) == (ManagedProcess { reload_signal_sent: None, ..*old(self) }),
                None => !old(self).overdue(now) && *final(self) == *old(self),
            },
    {
        match (self.running, self.reload_signal_sent) {
            (Some(pgid), Some(sent)) => {
                if elapsed_since(sent, now) as u128 >= self.def.options.shutdown.millis {
                    self.reload_signal_sent = None;
                    Some(pgid)
                } else {
                    None
                }
            },
            _ => None,
        }
    }

    /// Records that the process is signalled for shutdown at `now`. Gives
    /// the process group to signal, the signal and the message to report;
    /// none where the process does not run, and then nothing changes.
    pub fn signal_for_shutdown(&mut self, now: u64) -> (r: Option<(i32, Signal, String)>)
        ensures
            match r {
                Some((pgid, sig, message)) => old(self).running == Some(pgid) && sig == old(
                    self,
                ).def.options.signal && message@ == Self::kill_message(sig) && *final(self) == (
                ManagedProcess { reload_signal_sent: Some(now), ..*old(self) }),
                None => old(self).running.is_none() && *final(self) == *old(self),
            },
    {
        match self.running {
            Some(pgid) => {
                self.reload_signal_sent = Some(now);
                let sig = self.def.options.signal;
                Some((pgid, sig, Self::kill_text(sig)))
            },
            None => None,
        }
    }

    /// Whether a restart of the process is due at `now`.
    pub open spec fn restart_due(&self, now: u64) -> bool {
        self.scheduled_restart.is_some() && now >= self.scheduled_restart.unwrap()
    }

    pub fn is_restart_due(&self, now: u64) -> (r: bool)
        ensures
            r == self.restart_due(now),
    {
        match self.scheduled_restart {
            Some(t) => now >= t,
            None => false,
        }
    }
}

/// The process groups that have a live child. Should the supervisor come to
/// an end while it is armed, every one of them is to be killed.
#[derive(Debug, Clone, PartialEq, Eq)]
pub struct ShutdownGuard {
    pub pgids: Vec<i32>,
    pub active: bool,
}

/// `list` without every occurrence of `pgid`.
pub open spec fn without(list: Seq<i32>, pgid: i32) -> Seq<i32>
    decreases list.len(),
{
    if list.len() == 0 {
        Seq::empty()
    } else if list.last() == pgid {
        without(list.drop_last(), pgid)
    } else {
        without(list.drop_last(), pgid).push(list.last())
    }
}

/// `without` drops `pgid` and nothing else.
pub proof fn lemma_without(list: Seq<i32>, pgid: i32)
    ensures
        !without(list, pgid).contains(pgid),
        forall|p: i32| p != pgid && list.contains(p) ==> without(list, pgid).contains(p),
        forall|p: i32| without(list, pgid).contains(p) ==> list.contains(p),
    decreases list.len(),
{
    if list.len() > 0 {
        let rest = list.drop_last();
        lemma_without(rest, pgid);
        let w = without(list, pgid);
        assert forall|p: i32| p != pgid && list.contains(p) implies w.contains(p) by {
            let k = choose|k: int| 0 <= k < list.len() && list[k] == p;
            if k < list.len() - 1 {
                assert(rest[k] == p);
                assert(rest.contains(p));
                assert(without(rest, pgid).contains(p));
                let j = choose|j: int| 0 <= j < without(rest, pgid).len() && without(rest, pgid)[j] == p;
                assert(w[j] == p);
            } else {
                assert(w.last() == p);
            }
        }
        assert forall|p: i32| w.contains(p) implies list.contains(p) by {
            let j = choose|j: int| 0 <= j < w.len() && w[j] == p;
            if j < without(rest, pgid).len() {
                assert(without(rest, pgid)[j] == p);
                assert(without(rest, pgid).contains(p));
                assert(rest.contains(p));
                let k = choose|k: int| 0 <= k < rest.len() && rest[k] == p;
                assert(list[k] == p);
            } else {
                assert(list[list.len() - 1] == p);
            }
        }
        if w.contains(pgid) {
            let j = choose|j: int| 0 <= j < w.len() && w[j] == pgid;
            if j < without(rest, pgid).len() {
                assert(without(rest, pgid)[j] == pgid);
                assert(without(rest, pgid).contains(pgid));
            }
        }
    }
}

impl ShutdownGuard {
    /// An armed guard that tracks nothing.
    pub fn new() -> (r: ShutdownGuard)
        ensures
            r.pgids@.len() == 0,
            r.active,
    {
        ShutdownGuard { pgids: Vec::new(), active: true }
    }

    /// Whether `pgid` is tracked.
    pub fn is_tracked(&self, pgid: i32) -> (r: bool)
        ensures
            r == self.pgids@.contains(pgid),
    {
        let mut i: usize = 0;
        while i < self.pgids.len()
            invariant
                i <= self.pgids@.len(),
                forall|k: int| 0 <= k < i ==> self.pgids@[k] != pgid,
            decreases self.pgids@.len() - i,
        {
            if self.pgids[i] == pgid {
                return true;
            }
            i += 1;
        }
        false
    }

    /// Tracks `pgid`, once.
    pub fn track(&mut self, pgid: i32)
        ensures
            final(self).active == old(self).active,
            final(self).pgids@ == (if old(self).pgids@.contains(pgid) {
                old(self).pgids@
            } else {
                old(self).pgids@.push(pgid)
            }),
            final(self).pgids@.contains(pgid),
            forall|p: i32| old(self).pgids@.contains(p) ==> final(self).pgids@.contains(p),
    {
        if !self.is_tracked(pgid) {
            self.pgids.push(pgid);
            assert(self.pgids@.last() == pgid);
            assert forall|p: i32| old(self).pgids@.contains(p) implies self.pgids@.contains(
                p,
            ) by {
                let k = choose|k: int| 0 <= k < old(self).pgids@.len() && old(self).pgids@[k] == p;
                assert(self.pgids@[k] == p);
            }
        }
    }

    /// Stops tracking `pgid`.
    pub fn untrack(&mut self, pgid: i32)
        ensures
            final(self).active == old(self).active,
            final(self).pgids@ == without(old(self).pgids@, pgid),
            !final(self).pgids@.contains(pgid),
            forall|p: i32|
                p != pgid && old(self).pgids@.contains(p) ==> final(self).pgids@.contains(p),
    {
        let mut keep: Vec<i32> = Vec::new();
        let mut i: usize = 0;
        assert(old(self).pgids@.subrange(0, 0) =~= Seq::empty());
        assert(keep@ =~= without(old(self).pgids@.subrange(0, 0), pgid));
        while i < self.pgids.len()
            invariant
                i <= self.pgids@.len(),
                *self == *old(self),
                keep@ == without(self.pgids@.subrange(0, i as int), pgid),
            decreases self.pgids@.len() - i,
        {
            let p = self.pgids[i];
            proof {
                let prefix = self.pgids@.subrange(0, i + 1);
                assert(prefix.drop_last() =~= self.pgids@.subrange(0, i as int));
                assert(prefix.last() == p);
            }
            if p != pgid {
                keep.push(p);
            }
            i += 1;
        }
        proof {
            assert(self.pgids@.subrange(0, i as int) =~= self.pgids@);
            lemma_without(old(self).pgids@, pgid);
        }
        self.pgids = keep;
    }

    /// Disarms the guard: the supervisor has cleaned up itself.
    pub fn disarm(&mut self)
        ensures
            !final(self).active,
            final(self).pgids@ == old(self).pgids@,
    {
        self.active = false;
    }

    /// The process groups to kill should the supervisor come to an end now:
    /// every tracked one while the guard is armed, none once it is disarmed.
    pub fn to_kill(&self) -> (r: Vec<i32>)
        ensures
            r@ == (if self.active {
                self.pgids@
            } else {
                Seq::empty()
            }),
    {
        let mut out: Vec<i32> = Vec::new();
        if self.active {
            let mut i: usize = 0;
            while i < self.pgids.len()
                invariant
                    i <= self.pgids@.len(),
                    out@ == self.pgids@.subrange(0, i as int),
                decreases self.pgids@.len() - i,
            {
                out.push(self.pgids[i]);
                assert(out@ =~= self.pgids@.subrange(0, i + 1));
                i += 1;
            }
            assert(self.pgids@.subrange(0, i as int) =~= self.pgids@);
        } else {
            assert(out@ =~= Seq::empty());
        }
        out
    }
}

} // verus!
