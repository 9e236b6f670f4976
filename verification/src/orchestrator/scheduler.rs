//! The supervisor's view of all processes: which to start, which to signal,
//! which to kill, and when the loop ends.

use vstd::prelude::*;
use crate::orchestrator::graph::{named, unique_upto, DependencyGraph};
use crate::orchestrator::supervisor::{ControlLine, ManagedProcess, ShutdownGuard};
use crate::orchestrator::ProcessStatus;
use crate::output::ControlEvent;
use crate::parser::ast::{names_view, processes_view, ProcessDef, Signal};
use crate::text::append_chars;
use crate::parser::valid_manifest;
use crate::parser::validate::{dep_graph, proc_names};
use crate::text::{chars_of, string_of};

verus! {

/// What holds of the state of every process: a process that runs or is
/// ready was started, and no restart is scheduled for a process that runs.
pub open spec fn process_wf(p: ManagedProcess) -> bool {
    &&& p.running.is_some() ==> p.started
    &&& p.is_ready ==> p.started
    &&& p.scheduled_restart.is_some() ==> p.running.is_none()
}

/// The state of the supervision of one manifest.
pub struct Supervisor {
    /// The processes, in document order.
    pub processes: Vec<ManagedProcess>,
    /// What each process depends on.
    pub graph: DependencyGraph,
    /// For each process, whether it was considered signalled in this
    /// shutdown.
    pub shutdown_signaled: Vec<bool>,
    /// Whether the supervisor is shutting down.
    pub shutting_down: bool,
    /// The process groups with a live child.
    pub guard: ShutdownGuard,
}

/// The definitions of the processes.
pub open spec fn definitions(processes: Seq<ManagedProcess>) -> Seq<ProcessDef> {
    Seq::new(processes.len(), |i: int| processes[i].def)
}

impl Supervisor {
    /// What `new` establishes and every step keeps: the processes are those
    /// of the graph, each in a valid state, and the guard tracks the process
    /// group of every process that runs.
    pub open spec fn wf(&self) -> bool {
        &&& self.graph.wf()
        &&& self.processes@.len() == self.graph.graph().len()
        &&& self.shutdown_signaled@.len() == self.processes@.len()
        &&& self.graph.names() == proc_names(processes_view(definitions(self.processes@)))
        &&& self.graph.graph() == dep_graph(processes_view(definitions(self.processes@)))
        &&& forall|i: int| 0 <= i < self.processes@.len() ==> process_wf(#[trigger] self.processes@[i])
        &&& forall|i: int|
            0 <= i < self.processes@.len() && (#[trigger] self.processes@[i]).running.is_some()
                ==> self.guard.pgids@.contains(self.processes@[i].running.unwrap())
    }

    /// The supervisor of the processes of a validated manifest, before any
    /// of them is started.
    pub fn new(processes: Vec<ProcessDef>) -> (r: Supervisor)
        requires
            valid_manifest(processes_view(processes@)),
        ensures
            r.wf(),
            definitions(r.processes@) == processes@,
            !r.shutting_down,
            r.guard.active,
            r.guard.pgids@.len() == 0,
            r.processes@.len() == processes@.len(),
            forall|i: int|
                0 <= i < r.processes@.len() ==> #[trigger] r.processes@[i] == ManagedProcess::fresh(
                    processes@[i],
                ) && !r.shutdown_signaled@[i],
    {
        let graph = DependencyGraph::new(&processes);
        let n = processes.len();
        let mut defs = processes;
        let mut reversed: Vec<ManagedProcess> = Vec::new();
        while defs.len() > 0
            invariant
                defs@.len() + reversed@.len() == n,
                n == processes@.len(),
                defs@ == processes@.subrange(0, defs@.len() as int),
                forall|k: int|
                    0 <= k < reversed@.len() ==> #[trigger] reversed@[k] == ManagedProcess::fresh(
                        processes@[n - 1 - k],
                    ),
            decreases defs@.len(),
        {
            let ghost before = defs@;
            let def = defs.pop().unwrap();
            assert(defs@ =~= processes@.subrange(0, defs@.len() as int));
            reversed.push(ManagedProcess::new(def));
        }
        let mut managed: Vec<ManagedProcess> = Vec::new();
        let mut signaled: Vec<bool> = Vec::new();
        while reversed.len() > 0
            invariant
                managed@.len() + reversed@.len() == n,
                n == processes@.len(),
                signaled@.len() == managed@.len(),
                forall|k: int| 0 <= k < signaled@.len() ==> !signaled@[k],
                forall|k: int|
                    0 <= k < reversed@.len() ==> #[trigger] reversed@[k] == ManagedProcess::fresh(
                        processes@[n - 1 - k],
                    ),
                forall|k: int|
                    0 <= k < managed@.len() ==> #[trigger] managed@[k] == ManagedProcess::fresh(
                        processes@[k],
                    ),
            decreases reversed@.len(),
        {
            let p = reversed.pop().unwrap();
            managed.push(p);
            signaled.push(false);
        }
        assert(definitions(managed@) =~= processes@);
        Supervisor {
            processes: managed,
            graph,
            shutdown_signaled: signaled,
            shutting_down: false,
            guard: ShutdownGuard::new(),
        }
    }

    /// Takes in an interrupt: once one was seen, the supervisor shuts down.
    pub fn intake_shutdown(&mut self, interrupted: bool)
        ensures
            final(self).shutting_down == (old(self).shutting_down || interrupted),
            final(self).processes == old(self).processes,
            final(self).graph == old(self).graph,
            final(self).shutdown_signaled == old(self).shutdown_signaled,
            final(self).guard == old(self).guard,
    {
        if interrupted {
            self.shutting_down = true;
        }
    }

    /// Whether the process `i` can start: it was never started, and every
    /// process that it depends on is ready.
    pub open spec fn startable(&self, i: int) -> bool {
        &&& 0 <= i < self.processes@.len()
        &&& !self.processes@[i].started
        &&& forall|k: int|
            0 <= k < self.graph.graph()[i].len() ==> self.processes@[(
            #[trigger] self.graph.graph()[i][k]) as int].is_ready
    }

    /// The processes among the first `n` that can start, ascending.
    pub open spec fn startable_upto(&self, n: int) -> Seq<usize>
        decreases n,
    {
        if n <= 0 || n > self.processes@.len() {
            Seq::empty()
        } else if self.startable(n - 1) {
            self.startable_upto(n - 1).push((n - 1) as usize)
        } else {
            self.startable_upto(n - 1)
        }
    }

    /// The processes to spawn now: those never started whose dependencies
    /// are all ready, in document order.
    pub fn ready_to_start(&self) -> (r: Vec<usize>)
        requires
            self.wf(),
        ensures
            r@ == self.startable_upto(self.processes@.len() as int),
            forall|k: int| 0 <= k < r@.len() ==> self.startable(#[trigger] r@[k] as int),
    {
        let mut out: Vec<usize> = Vec::new();
        let mut i: usize = 0;
        assert(out@ =~= Seq::empty());
        while i < self.processes.len()
            invariant
                i <= self.processes@.len(),
                self.wf(),
                out@ == self.startable_upto(i as int),
                forall|k: int| 0 <= k < out@.len() ==> self.startable(#[trigger] out@[k] as int),
            decreases self.processes@.len() - i,
        {
            if !self.processes[i].started {
                let deps = self.graph.dependency_indices(i);
                let mut all_ready = true;
                let mut k: usize = 0;
                while k < deps.len()
                    invariant
                        k <= deps@.len(),
                        i < self.processes@.len(),
                        self.processes@.len() == self.graph.graph().len(),
                        deps@ == self.graph.graph()[i as int],
                        forall|j: int|
                            0 <= j < deps@.len() ==> (#[trigger] deps@[j]) < self.graph.graph().len(),
                        all_ready == (forall|j: int|
                            0 <= j < k ==> self.processes@[(#[trigger] deps@[j]) as int].is_ready),
                    decreases deps@.len() - k,
                {
                    if !self.processes[deps[k]].is_ready {
                        all_ready = false;
                    }
                    k += 1;
                }
                if all_ready {
                    out.push(i);
                }
            }
            i += 1;
        }
        out
    }

    /// The first `n` of `names`, joined by a comma and a space.
    pub open spec fn comma_joined(names: Seq<Seq<char>>, n: int) -> Seq<char>
        decreases n,
    {
        if n <= 0 || n > names.len() {
            Seq::empty()
        } else if n == 1 {
            names[0]
        } else {
            Self::comma_joined(names, n - 1) + ", "@ + names[n - 1]
        }
    }

    /// The message for a process that is ready the moment it starts: that it
    /// started, and, where `deps` are named, after which processes.
    pub open spec fn started_message(deps: Seq<Seq<char>>) -> Seq<char> {
        if deps.len() == 0 {
            "started"@
        } else {
            "started (after "@ + Self::comma_joined(deps, deps.len() as int) + ")"@
        }
    }

    /// The names of the processes that the process `i` depends on, each
    /// once, in the order of its declaration.
    pub open spec fn dependency_names(&self, i: int) -> Seq<Seq<char>> {
        named(
            self.graph.names(),
            unique_upto(self.graph.graph()[i], self.graph.graph()[i].len() as int),
        )
    }

    /// Records that the process `i` was spawned in the process group `pgid`
    /// at the time `now`, and tracks the group. Gives the line to report
    /// where the process is ready at once; with `announce`, the line names
    /// the processes that it waited for.
    pub fn on_spawned(&mut self, i: usize, pgid: i32, now: u64, announce: bool) -> (r: Option<
        ControlLine,
    >)
        requires
            old(self).wf(),
            i < old(self).processes@.len(),
        ensures
            final(self).wf(),
            final(self).processes@.len() == old(self).processes@.len(),
            final(self).processes@[i as int] == (ManagedProcess {
                running: Some(pgid),
                is_ready: old(self).processes@[i as int].ready_on_start(),
                started: true,
                last_start_time: Some(now),
                scheduled_restart: None,
                last_backoff_decrease: None,
                ..old(self).processes@[i as int]
            }),
            forall|j: int|
                0 <= j < old(self).processes@.len() && j != i ==> final(self).processes@[j] == old(
                    self,
                ).processes@[j],
            final(self).shutting_down == old(self).shutting_down,
            final(self).shutdown_signaled == old(self).shutdown_signaled,
            final(self).graph == old(self).graph,
            final(self).guard.pgids@.contains(pgid),
            final(self).guard.active == old(self).guard.active,
            match r {
                Some(line) => old(self).processes@[i as int].ready_on_start() && line@.process
                    == old(self).processes@[i as int].def.name@ && line@.event
                    == ControlEvent::Ready && line@.message == Self::started_message(
                    if announce {
                        old(self).dependency_names(i as int)
                    } else {
                        Seq::empty()
                    },
                ),
                None => !old(self).processes@[i as int].ready_on_start(),
            },
    {
        let ready = self.processes[i].mark_spawned(pgid, now);
        self.guard.track(pgid);
        proof {
            assert(definitions(self.processes@) =~= definitions(old(self).processes@));
            assert forall|j: int|
                0 <= j < self.processes@.len() && (#[trigger] self.processes@[j]).running.is_some(
                ) implies self.guard.pgids@.contains(self.processes@[j].running.unwrap()) by {
                if j != i {
                    assert(old(self).processes@[j].running.is_some());
                }
            }
        }
        if !ready {
            return None;
        }
        let name = self.processes[i].def.name.clone();
        let mut text = chars_of("started");
        if announce {
            let deps = self.graph.dependencies_of(name.as_str());
            proof {
                self.graph.lemma_valid();
                crate::parser::validate::lemma_index_of(self.graph.names(), name@);
                crate::parser::validate::lemma_index_of_own(self.graph.names(), i as int);
            }
            if deps.len() > 0 {
                text = chars_of("started (after ");
                let ghost names = names_view(deps@);
                let mut joined: Vec<char> = Vec::new();
                let mut k: usize = 0;
                assert(joined@ =~= Seq::empty());
                while k < deps.len()
                    invariant
                        k <= deps@.len(),
                        names == names_view(deps@),
                        joined@ == Self::comma_joined(names, k as int),
                    decreases deps@.len() - k,
                {
                    if k > 0 {
                        let sep = chars_of(", ");
                        append_chars(&mut joined, &sep);
                    }
                    let dep = chars_of(deps[k].as_str());
                    assert(names[k as int] == dep@);
                    append_chars(&mut joined, &dep);
                    assert(joined@ =~= Self::comma_joined(names, k + 1));
                    k += 1;
                }
                append_chars(&mut text, &joined);
                let close = chars_of(")");
                append_chars(&mut text, &close);
                assert(text@ =~= Self::started_message(names));
            }
        }
        Some(ControlLine { process: name, event: ControlEvent::Ready, message: string_of(&text) })
    }

    /// Takes in that the process `i` could not be spawned, for the first
    /// time or again. The failure is final for the process: it counts as
    /// started, so that it is not tried again, and no restart stays
    /// scheduled; it never becomes ready. Gives the line to report.
    pub fn on_spawn_failed(&mut self, i: usize, reason: &str, again: bool) -> (r: ControlLine)
        requires
            old(self).wf(),
            i < old(self).processes@.len(),
        ensures
            final(self).wf(),
            final(self).processes@.len() == old(self).processes@.len(),
            final(self).processes@[i as int] == (ManagedProcess {
                started: true,
                scheduled_restart: None,
                ..old(self).processes@[i as int]
            }),
            forall|j: int|
                0 <= j < old(self).processes@.len() && j != i ==> final(self).processes@[j] == old(
                    self,
                ).processes@[j],
            final(self).shutting_down == old(self).shutting_down,
            final(self).shutdown_signaled == old(self).shutdown_signaled,
            final(self).graph == old(self).graph,
            final(self).guard == old(self).guard,
            r@.process == old(self).processes@[i as int].def.name@,
            r@.event == ControlEvent::Crashed,
            r@.message == (if again {
                "failed to restart: "@
            } else {
                "failed to start: "@
            }) + reason@,
    {
        self.processes[i].started = true;
        self.processes[i].scheduled_restart = None;
        let mut text = if again {
            chars_of("failed to restart: ")
        } else {
            chars_of("failed to start: ")
        };
        let why = chars_of(reason);
        append_chars(&mut text, &why);
        let line = ControlLine {
            process: self.processes[i].def.name.clone(),
            event: ControlEvent::Crashed,
            message: string_of(&text),
        };
        proof {
            assert forall|j: int| 0 <= j < old(self).processes@.len() implies (
            #[trigger] self.processes@[j]).def == old(self).processes@[j].def && process_wf(
                self.processes@[j],
            ) && (self.processes@[j].running.is_some() ==> self.guard.pgids@.contains(
                self.processes@[j].running.unwrap(),
            )) by {
                assert(process_wf(old(self).processes@[j]));
            }
            assert(definitions(self.processes@) =~= definitions(old(self).processes@));
        }
        line
    }

    /// A step that leaves the graph and the definitions alone, keeps every
    /// process in a valid state and every running process tracked, keeps
    /// the invariant.
    pub proof fn lemma_keeps_wf(before: Supervisor, after: Supervisor)
        requires
            before.wf(),
            after.graph == before.graph,
            after.processes@.len() == before.processes@.len(),
            after.shutdown_signaled@.len() == before.shutdown_signaled@.len(),
            forall|j: int|
                0 <= j < before.processes@.len() ==> (#[trigger] after.processes@[j]).def
                    == before.processes@[j].def && process_wf(after.processes@[j]) && (
                after.processes@[j].running.is_some() ==> after.guard.pgids@.contains(
                    after.processes@[j].running.unwrap(),
                )),
        ensures
            after.wf(),
    {
        assert(definitions(after.processes@) =~= definitions(before.processes@));
    }

    /// Decides whether the probe of the process `i` is to be checked at
    /// `now`, and keeps the books of the probing.
    pub fn probe_due(&mut self, i: usize, now: u64) -> (r: bool)
        requires
            old(self).wf(),
            i < old(self).processes@.len(),
        ensures
            final(self).wf(),
            r == (old(self).processes@[i as int].awaits_probe() && old(
                self,
            ).processes@[i as int].check_due(now)),
            final(self).processes@.len() == old(self).processes@.len(),
            final(self).processes@[i as int] == (if !old(self).processes@[i as int].awaits_probe() {
                old(self).processes@[i as int]
            } else {
                ManagedProcess {
                    ready_probe_started: if old(
                        self,
                    ).processes@[i as int].ready_probe_started.is_none() {
                        Some(now)
                    } else {
                        old(self).processes@[i as int].ready_probe_started
                    },
                    last_probe_check: if old(self).processes@[i as int].check_due(now) {
                        Some(now)
                    } else {
                        old(self).processes@[i as int].last_probe_check
                    },
                    ..old(self).processes@[i as int]
                }
            }),
            forall|j: int|
                0 <= j < old(self).processes@.len() && j != i ==> final(self).processes@[j] == old(
                    self,
                ).processes@[j],
            final(self).shutting_down == old(self).shutting_down,
            final(self).shutdown_signaled == old(self).shutdown_signaled,
            final(self).graph == old(self).graph,
            final(self).guard == old(self).guard,
    {
        let r = self.processes[i].probe_due(now);
        proof {
            Self::lemma_keeps_wf(*old(self), *self);
        }
        r
    }

    /// Takes in the result of a check of the probe of the process `i` made
    /// at `now`. A probe that passes makes the process ready; one that has
    /// failed for 30 s makes the supervisor shut down. Gives the line to
    /// report, if any.
    pub fn probe_result(&mut self, i: usize, passed: bool, now: u64) -> (r: Option<ControlLine>)
        requires
            old(self).wf(),
            i < old(self).processes@.len(),
            old(self).processes@[i as int].running.is_some(),
        ensures
            final(self).wf(),
            final(self).processes@.len() == old(self).processes@.len(),
            final(self).processes@[i as int] == (ManagedProcess {
                is_ready: old(self).processes@[i as int].is_ready || passed,
                ready_probe_started: if passed || old(self).processes@[i as int].probe_aborts(
                    passed,
                    now,
                ) {
                    None
                } else {
                    old(self).processes@[i as int].ready_probe_started
                },
                ..old(self).processes@[i as int]
            }),
            forall|j: int|
                0 <= j < old(self).processes@.len() && j != i ==> final(self).processes@[j] == old(
                    self,
                ).processes@[j],
            final(self).shutting_down == (old(self).shutting_down || old(
                self,
            ).processes@[i as int].probe_aborts(passed, now)),
            final(self).shutdown_signaled == old(self).shutdown_signaled,
            final(self).graph == old(self).graph,
            final(self).guard == old(self).guard,
            match r {
                Some(line) => old(self).processes@[i as int].probe_report(passed, now) == Some(
                    (line@.event, line@.message),
                ) && line@.process == old(self).processes@[i as int].def.name@,
                None => old(self).processes@[i as int].probe_report(passed, now).is_none(),
            },
    {
        let (report, abort) = self.processes[i].probe_result(passed, now);
        if abort {
            self.shutting_down = true;
        }
        proof {
            Self::lemma_keeps_wf(*old(self), *self);
        }
        match report {
            Some((event, message)) => Some(
                ControlLine { process: self.processes[i].def.name.clone(), event, message },
            ),
            None => None,
        }
    }

    /// Lowers the failure count of every process that has run stably for
    /// its current backoff.
    pub fn relax_backoff(&mut self, now: u64)
        requires
            old(self).wf(),
        ensures
            final(self).wf(),
            final(self).processes@.len() == old(self).processes@.len(),
            forall|j: int|
                0 <= j < old(self).processes@.len() ==> #[trigger] final(self).processes@[j] == (
                if old(self).processes@[j].relaxes(now) {
                    ManagedProcess {
                        consecutive_failures: (old(self).processes@[j].consecutive_failures
                            - 1) as u32,
                        last_backoff_decrease: Some(now),
                        ..old(self).processes@[j]
                    }
                } else {
                    old(self).processes@[j]
                }),
            final(self).shutting_down == old(self).shutting_down,
            final(self).shutdown_signaled == old(self).shutdown_signaled,
            final(self).graph == old(self).graph,
            final(self).guard == old(self).guard,
    {
        let mut i: usize = 0;
        while i < self.processes.len()
            invariant
                i <= self.processes@.len(),
                self.processes@.len() == old(self).processes@.len(),
                self.shutting_down == old(self).shutting_down,
                self.shutdown_signaled == old(self).shutdown_signaled,
                self.graph == old(self).graph,
                self.guard == old(self).guard,
                forall|j: int| i <= j < self.processes@.len() ==> self.processes@[j] == old(
                    self,
                ).processes@[j],
                forall|j: int|
                    0 <= j < i ==> #[trigger] self.processes@[j] == (if old(
                        self,
                    ).processes@[j].relaxes(now) {
                        ManagedProcess {
                            consecutive_failures: (old(self).processes@[j].consecutive_failures
                                - 1) as u32,
                            last_backoff_decrease: Some(now),
                            ..old(self).processes@[j]
                        }
                    } else {
                        old(self).processes@[j]
                    }),
            decreases self.processes@.len() - i,
        {
            self.processes[i].relax_backoff(now);
            i += 1;
        }
        proof {
            Self::lemma_keeps_wf(*old(self), *self);
        }
    }

    /// Whether a process other than `i` runs in the process group `pgid`.
    pub open spec fn shared_group(&self, i: int, pgid: i32) -> bool {
        exists|j: int|
            0 <= j < self.processes@.len() && j != i && (#[trigger] self.processes@[j]).running
                == Some(pgid)
    }

    fn group_is_shared(&self, i: usize, pgid: i32) -> (r: bool)
        ensures
            r == self.shared_group(i as int, pgid),
    {
        let mut j: usize = 0;
        while j < self.processes.len()
            invariant
                j <= self.processes@.len(),
                forall|k: int|
                    0 <= k < j && k != i ==> (#[trigger] self.processes@[k]).running != Some(pgid),
            decreases self.processes@.len() - j,
        {
            if j != i {
                match self.processes[j].running {
                    Some(p) => {
                        if p == pgid {
                            return true;
                        }
                    },
                    None => {},
                }
            }
            j += 1;
        }
        false
    }

    /// Takes in the exit of the child of the process `i` with `status` at
    /// `now`: stops tracking its process group, decides what the exit means,
    /// and shuts down where it aborts startup. Gives the lines to report and
    /// whether the process is to be spawned again at once.
    pub fn on_exit(&mut self, i: usize, status: ProcessStatus, now: u64) -> (r: (
        Vec<ControlLine>,
        bool,
    ))
        requires
            old(self).wf(),
            i < old(self).processes@.len(),
            old(self).processes@[i as int].running.is_some(),
        ensures
            final(self).wf(),
            final(self).processes@.len() == old(self).processes@.len(),
            final(self).processes@[i as int] == old(self).processes@[i as int].after_exit(
                status,
                old(self).shutting_down,
                now,
            ),
            forall|j: int|
                0 <= j < old(self).processes@.len() && j != i ==> final(self).processes@[j] == old(
                    self,
                ).processes@[j],
            final(self).shutting_down == (old(self).shutting_down || old(
                self,
            ).processes@[i as int].exit_aborts(status, old(self).shutting_down)),
            final(self).shutdown_signaled == old(self).shutdown_signaled,
            final(self).graph == old(self).graph,
            final(self).guard.active == old(self).guard.active,
            final(self).guard.pgids@ == (if old(self).shared_group(
                i as int,
                old(self).processes@[i as int].running.unwrap(),
            ) {
                old(self).guard.pgids@
            } else {
                crate::orchestrator::supervisor::without(
                    old(self).guard.pgids@,
                    old(self).processes@[i as int].running.unwrap(),
                )
            }),
            r.1 == old(self).processes@[i as int].exit_respawns(status, old(self).shutting_down),
            r.0@.len() == old(self).processes@[i as int].exit_report(
                status,
                old(self).shutting_down,
            ).len(),
            forall|k: int|
                0 <= k < r.0@.len() ==> (#[trigger] r.0@[k])@.process == old(
                    self,
                ).processes@[i as int].def.name@ && (r.0@[k]@.event, r.0@[k]@.message) == old(
                    self,
                ).processes@[i as int].exit_report(status, old(self).shutting_down)[k],
    {
        let pgid = self.processes[i].running.unwrap();
        let shared = self.group_is_shared(i, pgid);
        if !shared {
            self.guard.untrack(pgid);
        }
        let sd = self.shutting_down;
        let (report, abort, respawn) = self.processes[i].on_exit(status, sd, now);
        if abort {
            self.shutting_down = true;
        }
        proof {
            assert forall|j: int| 0 <= j < old(self).processes@.len() implies (
            #[trigger] self.processes@[j]).def == old(self).processes@[j].def && process_wf(
                self.processes@[j],
            ) && (self.processes@[j].running.is_some() ==> self.guard.pgids@.contains(
                self.processes@[j].running.unwrap(),
            )) by {
                assert(process_wf(old(self).processes@[j]));
                if j != i && self.processes@[j].running.is_some() {
                    let q = self.processes@[j].running.unwrap();
                    assert(old(self).guard.pgids@.contains(q));
                    if q == pgid {
                        assert(old(self).shared_group(i as int, pgid));
                    }
                }
            }
            Self::lemma_keeps_wf(*old(self), *self);
        }
        let ghost wanted = old(self).processes@[i as int].exit_report(status, old(self).shutting_down);
        let mut lines: Vec<ControlLine> = Vec::new();
        let mut k: usize = 0;
        while k < report.len()
            invariant
                k <= report@.len(),
                i < self.processes@.len(),
                self.processes@[i as int].def == old(self).processes@[i as int].def,
                crate::orchestrator::supervisor::report_view(report@) == wanted,
                lines@.len() == k,
                forall|a: int|
                    0 <= a < k ==> (#[trigger] lines@[a])@.process == old(
                        self,
                    ).processes@[i as int].def.name@ && (lines@[a]@.event, lines@[a]@.message)
                        == wanted[a],
            decreases report@.len() - k,
        {
            let event = report[k].0;
            let message = report[k].1.clone();
            assert(wanted[k as int] == (report@[k as int].0, report@[k as int].1@));
            lines.push(
                ControlLine { process: self.processes[i].def.name.clone(), event, message },
            );
            k += 1;
        }
        (lines, respawn)
    }

    /// The processes among the first `n` whose restart is due at `now`,
    /// ascending.
    pub open spec fn restarts_upto(&self, n: int, now: u64) -> Seq<usize>
        decreases n,
    {
        if n <= 0 || n > self.processes@.len() {
            Seq::empty()
        } else if self.processes@[n - 1].restart_due(now) {
            self.restarts_upto(n - 1, now).push((n - 1) as usize)
        } else {
            self.restarts_upto(n - 1, now)
        }
    }

    /// The processes to spawn again at `now` after a crash: none while
    /// shutting down, else those whose scheduled time has come.
    pub fn due_restarts(&self, now: u64) -> (r: Vec<usize>)
        ensures
            r@ == (if self.shutting_down {
                Seq::empty()
            } else {
                self.restarts_upto(self.processes@.len() as int, now)
            }),
            forall|k: int| 0 <= k < r@.len() ==> (#[trigger] r@[k]) < self.processes@.len(),
    {
        let mut out: Vec<usize> = Vec::new();
        if self.shutting_down {
            assert(out@ =~= Seq::empty());
            return out;
        }
        let mut i: usize = 0;
        assert(out@ =~= Seq::empty());
        while i < self.processes.len()
            invariant
                i <= self.processes@.len(),
                out@ == self.restarts_upto(i as int, now),
                forall|k: int| 0 <= k < out@.len() ==> (#[trigger] out@[k]) < i,
            decreases self.processes@.len() - i,
        {
            if self.processes[i].is_restart_due(now) {
                out.push(i);
            }
            i += 1;
        }
        out
    }

    /// Whether no process runs.
    pub open spec fn none_running(&self) -> bool {
        forall|j: int| 0 <= j < self.processes@.len() ==> (#[trigger] self.processes@[j]).running.is_none()
    }

    /// Whether some process is long-running.
    pub open spec fn has_long_running(&self) -> bool {
        exists|j: int| 0 <= j < self.processes@.len() && !(#[trigger] self.processes@[j]).def.oneshot
    }

    /// Whether every process has exited.
    pub fn all_exited(&self) -> (r: bool)
        ensures
            r == self.none_running(),
    {
        let mut i: usize = 0;
        while i < self.processes.len()
            invariant
                i <= self.processes@.len(),
                forall|j: int| 0 <= j < i ==> (#[trigger] self.processes@[j]).running.is_none(),
            decreases self.processes@.len() - i,
        {
            if self.processes[i].running.is_some() {
                return false;
            }
            i += 1;
        }
        true
    }

    /// Whether the loop ends: every process has exited, and the supervisor
    /// is shutting down, or no process is long-running, or no watcher is
    /// configured. With a watcher and a long-running process the loop ends
    /// by shutdown alone.
    pub fn should_exit(&self, has_watcher: bool) -> (r: bool)
        ensures
            r == (self.none_running() && (self.shutting_down || !self.has_long_running()
                || !has_watcher)),
    {
        if !self.all_exited() {
            return false;
        }
        if self.shutting_down || !has_watcher {
            return true;
        }
        let mut i: usize = 0;
        while i < self.processes.len()
            invariant
                i <= self.processes@.len(),
                self.none_running(),
                !self.shutting_down,
                has_watcher,
                forall|j: int| 0 <= j < i ==> (#[trigger] self.processes@[j]).def.oneshot,
            decreases self.processes@.len() - i,
        {
            if !self.processes[i].def.oneshot {
                assert(!self.processes@[i as int].def.oneshot);
                return false;
            }
            i += 1;
        }
        true
    }

    /// Takes in a reload intent for the process called `name` because
    /// `path` changed, at the time `now`. The process is reloaded where the
    /// supervisor is not shutting down, the name is that of a process, and
    /// that process runs with no reload under way. Gives the process group
    /// to signal, the signal, and the line to report.
    pub fn on_reload(&mut self, name: &str, path: &str, now: u64) -> (r: Option<
        (i32, Signal, ControlLine),
    >)
        requires
            old(self).wf(),
        ensures
            final(self).wf(),
            final(self).processes@.len() == old(self).processes@.len(),
            final(self).shutting_down == old(self).shutting_down,
            final(self).shutdown_signaled == old(self).shutdown_signaled,
            final(self).graph == old(self).graph,
            final(self).guard == old(self).guard,
            match r {
                Some((pgid, sig, line)) => {
                    let i = old(self).graph.node_of(name@);
                    &&& !old(self).shutting_down
                    &&& 0 <= i < old(self).processes@.len()
                    &&& old(self).processes@[i].reloads()
                    &&& old(self).processes@[i].running == Some(pgid)
                    &&& sig == old(self).processes@[i].def.options.signal
                    &&& line@.process == name@
                    &&& line@.event == ControlEvent::Restarting
                    &&& line@.message == ManagedProcess::kill_message(sig)
                    &&& final(self).processes@[i].reload_path.is_some()
                    &&& final(self).processes@[i].reload_path.unwrap()@ == path@
                    &&& final(self).processes@[i] == (ManagedProcess {
                        reloading: true,
                        reload_signal_sent: Some(now),
                        reload_path: final(self).processes@[i].reload_path,
                        ..old(self).processes@[i]
                    })
                    &&& forall|j: int|
                        0 <= j < old(self).processes@.len() && j != i ==> final(self).processes@[j] == old(self).processes@[j]
                },
                None => {
                    &&& final(self).processes@ == old(self).processes@
                    &&& (old(self).shutting_down || old(self).graph.node_of(name@) < 0 || !old(
                        self,
                    ).processes@[old(self).graph.node_of(name@)].reloads())
                },
            },
    {
        if self.shutting_down {
            return None;
        }
        let i = match self.graph.index_of_name(name) {
            Some(i) => i,
            None => {
                return None;
            },
        };
        proof {
            self.graph.lemma_valid();
        }
        match self.processes[i].begin_reload(path, now) {
            Some((pgid, sig, message)) => {
                proof {
                    Self::lemma_keeps_wf(*old(self), *self);
                    crate::parser::validate::lemma_index_of(self.graph.names(), name@);
                }
                let line = ControlLine {
                    process: string_of(&chars_of(name)),
                    event: ControlEvent::Restarting,
                    message,
                };
                Some((pgid, sig, line))
            },
            None => {
                assert(self.processes@ =~= old(self).processes@);
                None
            },
        }
    }

    /// The processes among the first `n` that are killed at `now`,
    /// ascending.
    pub open spec fn overdue_upto(&self, n: int, now: u64) -> Seq<usize>
        decreases n,
    {
        if n <= 0 || n > self.processes@.len() {
            Seq::empty()
        } else if self.processes@[n - 1].overdue(now) {
            self.overdue_upto(n - 1, now).push((n - 1) as usize)
        } else {
            self.overdue_upto(n - 1, now)
        }
    }

    /// Finds the processes that have outlived their grace period since they
    /// were signalled, and forgets the signal of each, so that each is killed
    /// once. Gives, for each, its index, the process group to kill and the
    /// line to report.
    pub fn kill_overdue(&mut self, now: u64) -> (r: Vec<(usize, i32, ControlLine)>)
        requires
            old(self).wf(),
        ensures
            final(self).wf(),
            final(self).processes@.len() == old(self).processes@.len(),
            forall|j: int|
                0 <= j < old(self).processes@.len() ==> #[trigger] final(self).processes@[j] == (
                if old(self).processes@[j].overdue(now) {
                    ManagedProcess { reload_signal_sent: None, ..old(self).processes@[j] }
                } else {
                    old(self).processes@[j]
                }),
            final(self).shutting_down == old(self).shutting_down,
            final(self).shutdown_signaled == old(self).shutdown_signaled,
            final(self).graph == old(self).graph,
            final(self).guard == old(self).guard,
            r@.len() == old(self).overdue_upto(old(self).processes@.len() as int, now).len(),
            forall|k: int|
                0 <= k < r@.len() ==> (#[trigger] r@[k]).0 == old(self).overdue_upto(
                    old(self).processes@.len() as int,
                    now,
                )[k] && r@[k].0 < old(self).processes@.len() && old(
                    self,
                ).processes@[r@[k].0 as int].running == Some(r@[k].1) && r@[k].2@.process == old(
                    self,
                ).processes@[r@[k].0 as int].def.name@ && r@[k].2@.event == ControlEvent::Stopped
                    && r@[k].2@.message == "kill -9"@,
    {
        let mut out: Vec<(usize, i32, ControlLine)> = Vec::new();
        let mut i: usize = 0;
        while i < self.processes.len()
            invariant
                i <= self.processes@.len(),
                self.processes@.len() == old(self).processes@.len(),
                self.shutting_down == old(self).shutting_down,
                self.shutdown_signaled == old(self).shutdown_signaled,
                self.graph == old(self).graph,
                self.guard == old(self).guard,
                forall|j: int| i <= j < self.processes@.len() ==> self.processes@[j] == old(
                    self,
                ).processes@[j],
                forall|j: int|
                    0 <= j < i ==> #[trigger] self.processes@[j] == (if old(
                        self,
                    ).processes@[j].overdue(now) {
                        ManagedProcess { reload_signal_sent: None, ..old(self).processes@[j] }
                    } else {
                        old(self).processes@[j]
                    }),
                out@.len() == old(self).overdue_upto(i as int, now).len(),
                forall|k: int|
                    0 <= k < out@.len() ==> (#[trigger] out@[k]).0 == old(self).overdue_upto(
                        i as int,
                        now,
                    )[k] && out@[k].0 < i && old(self).processes@[out@[k].0 as int].running
                        == Some(out@[k].1) && out@[k].2@.process == old(
                        self,
                    ).processes@[out@[k].0 as int].def.name@ && out@[k].2@.event
                        == ControlEvent::Stopped && out@[k].2@.message == "kill -9"@,
            decreases self.processes@.len() - i,
        {
            match self.processes[i].kill_if_overdue(now) {
                Some(pgid) => {
                    let line = ControlLine {
                        process: self.processes[i].def.name.clone(),
                        event: ControlEvent::Stopped,
                        message: string_of(&chars_of("kill -9")),
                    };
                    out.push((i, pgid, line));
                },
                None => {},
            }
            i += 1;
        }
        proof {
            Self::lemma_keeps_wf(*old(self), *self);
        }
        out
    }

    /// Whether no process that depends on the process `i` runs.
    pub open spec fn dependents_stopped(&self, i: int) -> bool {
        forall|j: int|
            0 <= j < self.processes@.len() && self.graph.graph()[j].contains(i as usize) ==> (
            #[trigger] self.processes@[j]).running.is_none()
    }

    /// Whether the process `i` is signalled in this step of the shutdown:
    /// the supervisor shuts down, the process was not signalled yet, and
    /// everything that depends on it has exited.
    pub open spec fn signalled_now(&self, i: int) -> bool {
        self.shutting_down && !self.shutdown_signaled@[i] && self.dependents_stopped(i)
    }

    /// Among the first `k` processes in the order `order`, those that are
    /// signalled in this step and run.
    pub open spec fn dispatched_upto(&self, order: Seq<usize>, k: int) -> Seq<usize>
        decreases k,
    {
        if k <= 0 || k > order.len() {
            Seq::empty()
        } else if self.signalled_now(order[k - 1] as int) && self.processes@[order[k
            - 1] as int].running.is_some() {
            self.dispatched_upto(order, k - 1).push(order[k - 1])
        } else {
            self.dispatched_upto(order, k - 1)
        }
    }

    fn are_dependents_stopped(&self, i: usize) -> (r: bool)
        requires
            self.wf(),
            i < self.processes@.len(),
        ensures
            r == self.dependents_stopped(i as int),
    {
        let mut j: usize = 0;
        while j < self.processes.len()
            invariant
                j <= self.processes@.len(),
                self.wf(),
                forall|k: int|
                    0 <= k < j && self.graph.graph()[k].contains(i) ==> (
                    #[trigger] self.processes@[k]).running.is_none(),
            decreases self.processes@.len() - j,
        {
            if self.processes[j].running.is_some() {
                let deps = self.graph.dependency_indices(j);
                if crate::orchestrator::graph::contains_index(deps, i) {
                    return false;
                }
            }
            j += 1;
        }
        true
    }

    /// One step of the shutdown, at the time `now`: every process not yet
    /// signalled whose dependents have all exited is signalled, in the order
    /// of shutdown. Gives, for each of them that runs, its index, the
    /// process group to signal, the signal, and the line to report. Nothing
    /// happens while the supervisor is not shutting down.
    pub fn shutdown_dispatch(&mut self, now: u64) -> (r: Vec<(usize, i32, Signal, ControlLine)>)
        requires
            old(self).wf(),
        ensures
            final(self).wf(),
            final(self).processes@.len() == old(self).processes@.len(),
            forall|j: int|
                0 <= j < old(self).processes@.len() ==> #[trigger] final(self).processes@[j] == (
                if old(self).signalled_now(j) && old(self).processes@[j].running.is_some() {
                    ManagedProcess {
                        reload_signal_sent: Some(now),
                        ..old(self).processes@[j]
                    }
                } else {
                    old(self).processes@[j]
                }),
            forall|j: int|
                0 <= j < old(self).processes@.len() ==> #[trigger] final(self).shutdown_signaled@[j]
                    == (old(self).shutdown_signaled@[j] || old(self).signalled_now(j)),
            final(self).shutting_down == old(self).shutting_down,
            final(self).graph == old(self).graph,
            final(self).guard == old(self).guard,
            r@.len() == old(self).dispatched_upto(
                old(self).graph.shutdown_order(),
                old(self).processes@.len() as int,
            ).len(),
            forall|k: int|
                0 <= k < r@.len() ==> (#[trigger] r@[k]).0 == old(self).dispatched_upto(
                    old(self).graph.shutdown_order(),
                    old(self).processes@.len() as int,
                )[k] && r@[k].0 < old(self).processes@.len() && old(
                    self,
                ).processes@[r@[k].0 as int].running == Some(r@[k].1) && r@[k].2 == old(
                    self,
                ).processes@[r@[k].0 as int].def.options.signal && r@[k].3@.process == old(
                    self,
                ).processes@[r@[k].0 as int].def.name@ && r@[k].3@.event == ControlEvent::Stopped
                    && r@[k].3@.message == ManagedProcess::kill_message(r@[k].2),
    {
        let mut out: Vec<(usize, i32, Signal, ControlLine)> = Vec::new();
        let order = self.graph.shutdown_indices();
        let n = order.len();
        proof {
            self.graph.lemma_shutdown_order();
        }
        if !self.shutting_down {
            proof {
                assert forall|k: int| 0 <= k <= n implies (#[trigger] old(self).dispatched_upto(
                    order@,
                    k,
                )).len() == 0 by {
                    Self::lemma_no_dispatch(*old(self), order@, k);
                }
            }
            return out;
        }
        let mut k: usize = 0;
        while k < n
            invariant
                k <= n,
                n == order@.len(),
                n == self.processes@.len(),
                old(self).wf(),
                self.wf(),
                order@ == old(self).graph.shutdown_order(),
                forall|a: int| 0 <= a < n ==> (#[trigger] order@[a]) < n,
                forall|a: int, b: int| 0 <= a < b < n ==> order@[a] != order@[b],
                self.processes@.len() == old(self).processes@.len(),
                self.shutting_down == old(self).shutting_down,
                self.shutting_down,
                self.graph == old(self).graph,
                self.guard == old(self).guard,
                self.shutdown_signaled@.len() == n,
                forall|j: int|
                    0 <= j < n ==> (#[trigger] self.processes@[j]).running == old(
                        self,
                    ).processes@[j].running,
                forall|a: int|
                    k <= a < n ==> self.processes@[(#[trigger] order@[a]) as int] == old(
                        self,
                    ).processes@[order@[a] as int] && self.shutdown_signaled@[order@[a] as int]
                        == old(self).shutdown_signaled@[order@[a] as int],
                forall|a: int|
                    0 <= a < k ==> self.processes@[(#[trigger] order@[a]) as int] == (if old(
                        self,
                    ).signalled_now(order@[a] as int) && old(
                        self,
                    ).processes@[order@[a] as int].running.is_some() {
                        ManagedProcess {
                            reload_signal_sent: Some(now),
                            ..old(self).processes@[order@[a] as int]
                        }
                    } else {
                        old(self).processes@[order@[a] as int]
                    }) && self.shutdown_signaled@[order@[a] as int] == (old(
                        self,
                    ).shutdown_signaled@[order@[a] as int] || old(self).signalled_now(
                        order@[a] as int,
                    )),
                out@.len() == old(self).dispatched_upto(order@, k as int).len(),
                forall|b: int|
                    0 <= b < out@.len() ==> (#[trigger] out@[b]).0 == old(self).dispatched_upto(
                        order@,
                        k as int,
                    )[b] && out@[b].0 < n && old(self).processes@[out@[b].0 as int].running
                        == Some(out@[b].1) && out@[b].2 == old(
                        self,
                    ).processes@[out@[b].0 as int].def.options.signal && out@[b].3@.process == old(
                        self,
                    ).processes@[out@[b].0 as int].def.name@ && out@[b].3@.event
                        == ControlEvent::Stopped && out@[b].3@.message
                        == ManagedProcess::kill_message(out@[b].2),
            decreases n - k,
        {
            let i = order[k];
            let ghost before = *self;
            let stopped = self.are_dependents_stopped(i);
            proof {
                assert(self.dependents_stopped(i as int) == old(self).dependents_stopped(i as int));
            }
            if !self.shutdown_signaled[i] && stopped {
                assert(old(self).signalled_now(i as int));
                match self.processes[i].signal_for_shutdown(now) {
                    Some((pgid, sig, message)) => {
                        let line = ControlLine {
                            process: self.processes[i].def.name.clone(),
                            event: ControlEvent::Stopped,
                            message,
                        };
                        out.push((i, pgid, sig, line));
                    },
                    None => {},
                }
                self.shutdown_signaled.set(i, true);
            } else {
                assert(!old(self).signalled_now(i as int));
            }
            proof {
                Self::lemma_keeps_wf(before, *self);
            }
            k += 1;
        }
        proof {
            assert forall|j: int| 0 <= j < n implies #[trigger] self.processes@[j] == (if old(
                self,
            ).signalled_now(j) && old(self).processes@[j].running.is_some() {
                ManagedProcess { reload_signal_sent: Some(now), ..old(self).processes@[j] }
            } else {
                old(self).processes@[j]
            }) by {
                assert(crate::deps::appears(order@, j));
                let a = choose|a: int| 0 <= a < order@.len() && #[trigger] order@[a] == j;
                assert(order@[a] as int == j);
            }
            assert forall|j: int| 0 <= j < n implies #[trigger] self.shutdown_signaled@[j] == (old(
                self,
            ).shutdown_signaled@[j] || old(self).signalled_now(j)) by {
                assert(crate::deps::appears(order@, j));
                let a = choose|a: int| 0 <= a < order@.len() && #[trigger] order@[a] == j;
                assert(order@[a] as int == j);
            }
        }
        out
    }

    /// While the supervisor is not shutting down, no process is signalled.
    pub proof fn lemma_no_dispatch(s: Supervisor, order: Seq<usize>, k: int)
        requires
            !s.shutting_down,
        ensures
            s.dispatched_upto(order, k).len() == 0,
        decreases k,
    {
        if 0 < k <= order.len() {
            Self::lemma_no_dispatch(s, order, k - 1);
        }
    }

    /// The guard knows every live child: the process group of each process
    /// that runs is tracked, so that an armed guard names it for killing.
    pub proof fn lemma_running_is_tracked(s: Supervisor, i: int)
        requires
            s.wf(),
            0 <= i < s.processes@.len(),
            s.processes@[i].running.is_some(),
        ensures
            s.guard.pgids@.contains(s.processes@[i].running.unwrap()),
    {
    }
}

} // verus!
