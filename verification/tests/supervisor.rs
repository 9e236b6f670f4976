use proctor::orchestrator::scheduler::Supervisor;
use proctor::orchestrator::supervisor::{ControlLine, ManagedProcess, ShutdownGuard};
use proctor::orchestrator::{Orchestrator, ProcessStatus};
use proctor::output::ControlEvent;
use proctor::parser::ast::Signal;
use proctor::parser::parse;

fn supervisor(manifest: &str) -> Supervisor {
    Supervisor::new(parse(manifest).unwrap().processes)
}

fn shown(line: &ControlLine) -> (String, ControlEvent, String) {
    (line.process.clone(), line.event, line.message.clone())
}

fn line(process: &str, event: ControlEvent, message: &str) -> (String, ControlEvent, String) {
    (process.to_string(), event, message.to_string())
}

/// Spawns what can start, as the loop does; the process group of process `i`
/// is `100 + i`.
fn start(sup: &mut Supervisor, now: u64) -> Vec<(String, ControlEvent, String)> {
    let mut lines = Vec::new();
    for i in sup.ready_to_start() {
        if let Some(l) = sup.on_spawned(i, 100 + i as i32, now, true) {
            lines.push(shown(&l));
        }
    }
    lines
}

#[test]
fn test_minimal_manifest_runs_one_process() {
    let mut sup = supervisor("api: echo hello");
    assert_eq!(sup.processes.len(), 1);
    assert_eq!(start(&mut sup, 0), vec![line("api", ControlEvent::Ready, "started")]);
    assert!(sup.processes[0].is_running());
    assert!(!sup.should_exit(false));
    assert!(sup.ready_to_start().is_empty());
    let (lines, respawn) = sup.on_exit(0, ProcessStatus::Success, 40);
    assert!(!respawn);
    assert_eq!(lines.len(), 2);
    assert_eq!(shown(&lines[0]), line("api", ControlEvent::Crashed, "exit 0 (unexpectedly)"));
    assert_eq!(shown(&lines[1]), line("api", ControlEvent::Restarting, "in 1s"));
    // Nothing runs and nothing is watched: the loop ends.
    assert!(sup.should_exit(false));
    assert!(sup.guard.to_kill().is_empty());
}

#[test]
fn test_one_shot_finishes() {
    let mut sup = supervisor("api!: echo hello");
    assert!(start(&mut sup, 0).is_empty());
    assert!(!sup.processes[0].is_ready);
    let (lines, respawn) = sup.on_exit(0, ProcessStatus::Success, 40);
    assert!(!respawn);
    assert_eq!(lines.len(), 1);
    assert_eq!(shown(&lines[0]), line("api", ControlEvent::Ready, "exited successfully"));
    assert!(sup.processes[0].is_ready);
    assert!(!sup.shutting_down);
    assert!(sup.should_exit(true));
}

#[test]
fn test_one_shot_dependency() {
    let mut sup = supervisor("migrate!: true\napi after=migrate: echo ok");
    assert_eq!(sup.processes.len(), 2);
    assert_eq!(sup.ready_to_start(), vec![0]);
    assert!(start(&mut sup, 0).is_empty());
    // `api` waits until `migrate` is ready.
    assert!(sup.ready_to_start().is_empty());
    let (lines, _) = sup.on_exit(0, ProcessStatus::Success, 10);
    assert_eq!(lines.len(), 1);
    assert_eq!(shown(&lines[0]), line("migrate", ControlEvent::Ready, "exited successfully"));
    assert_eq!(sup.ready_to_start(), vec![1]);
    assert_eq!(
        start(&mut sup, 10),
        vec![line("api", ControlEvent::Ready, "started (after migrate)")]
    );
    assert!(sup.processes[1].is_running());
    assert!(sup.ready_to_start().is_empty());
}

#[test]
fn test_failed_one_shot_aborts() {
    let mut sup = supervisor("migrate!: false\napi after=migrate: echo ok");
    start(&mut sup, 0);
    let (lines, respawn) = sup.on_exit(0, ProcessStatus::Failed(1), 10);
    assert!(!respawn);
    assert_eq!(lines.len(), 1);
    assert_eq!(shown(&lines[0]), line("migrate", ControlEvent::Crashed, "exit 1 (aborting)"));
    assert!(sup.shutting_down);
    // `api` never starts.
    assert!(sup.ready_to_start().is_empty());
    assert!(!sup.processes[1].started);
    assert!(sup.due_restarts(1_000_000).is_empty());
    assert!(sup.should_exit(true));
}

#[test]
fn test_reload_on_file_change() {
    let mut sup = supervisor("api **/*.go debounce=0ms: while true; do sleep 1; done");
    start(&mut sup, 0);
    let (pgid, signal, l) = sup.on_reload("api", "foo.go", 50).unwrap();
    assert_eq!((pgid, signal), (100, Signal::Term));
    assert_eq!(shown(&l), line("api", ControlEvent::Restarting, "kill -TERM"));
    assert!(sup.processes[0].reloading);
    assert_eq!(sup.processes[0].reload_signal_sent, Some(50));
    // A second change while the reload is under way does nothing.
    assert!(sup.on_reload("api", "bar.go", 60).is_none());
    assert_eq!(sup.processes[0].reload_path, Some("foo.go".to_string()));

    let (lines, respawn) = sup.on_exit(0, ProcessStatus::Signaled(15), 70);
    assert!(respawn);
    assert_eq!(lines.len(), 1);
    assert_eq!(shown(&lines[0]), line("api", ControlEvent::Restarting, "foo.go"));
    assert_eq!(sup.processes[0].consecutive_failures, 0);
    assert!(!sup.processes[0].reloading);
    assert_eq!(sup.processes[0].reload_signal_sent, None);
    assert_eq!(sup.processes[0].scheduled_restart, None);
    assert!(sup.on_spawned(0, 200, 70, false).is_some());
    assert_eq!(sup.guard.pgids, vec![200]);
    // With a watcher and a long-running process the loop goes on.
    assert!(!sup.should_exit(true));
}

#[test]
fn test_reload_is_ignored_where_it_cannot_apply() {
    let mut sup = supervisor("api: run");
    // Not running yet.
    assert!(sup.on_reload("api", "x", 0).is_none());
    start(&mut sup, 0);
    assert!(sup.on_reload("other", "x", 0).is_none());
    sup.intake_shutdown(true);
    assert!(sup.on_reload("api", "x", 0).is_none());
    assert!(!sup.processes[0].reloading);
}

#[test]
fn test_reload_uses_the_signal_of_the_process() {
    let mut sup = supervisor("api signal=hup: run");
    start(&mut sup, 0);
    let (_, signal, l) = sup.on_reload("api", "x", 0).unwrap();
    assert_eq!(signal, Signal::Hup);
    assert_eq!(l.message, "kill -HUP");
}

#[test]
fn test_crash_backoff() {
    let mut sup = supervisor("flaky: false");
    let mut now = 0;
    start(&mut sup, now);
    for (failures, secs) in [(1, 1), (2, 2), (3, 4), (4, 8), (5, 16), (6, 32), (7, 32), (8, 32)] {
        let (lines, respawn) = sup.on_exit(0, ProcessStatus::Failed(1), now);
        assert!(!respawn);
        assert_eq!(lines.len(), 2);
        assert_eq!(shown(&lines[0]), line("flaky", ControlEvent::Crashed, "exit 1"));
        assert_eq!(
            shown(&lines[1]),
            line("flaky", ControlEvent::Restarting, &format!("in {}s", secs))
        );
        assert_eq!(sup.processes[0].consecutive_failures, failures);
        assert_eq!(sup.processes[0].scheduled_restart, Some(now + secs * 1000));
        assert!(sup.due_restarts(now + secs * 1000 - 1).is_empty());
        now += secs * 1000;
        assert_eq!(sup.due_restarts(now), vec![0]);
        assert!(sup.on_spawned(0, 100, now, false).is_some());
        assert_eq!(sup.processes[0].scheduled_restart, None);
        assert!(sup.due_restarts(now).is_empty());
    }
}

#[test]
fn test_backoff_heals_while_the_process_stays_up() {
    let mut sup = supervisor("api: run");
    start(&mut sup, 0);
    sup.on_exit(0, ProcessStatus::Failed(1), 0);
    sup.on_spawned(0, 100, 1_000, false);
    sup.on_exit(0, ProcessStatus::Failed(1), 1_000);
    sup.on_spawned(0, 100, 3_000, false);
    assert_eq!(sup.processes[0].consecutive_failures, 2);
    // Two failures: two seconds of stable running lower the count.
    sup.relax_backoff(4_999);
    assert_eq!(sup.processes[0].consecutive_failures, 2);
    sup.relax_backoff(5_000);
    assert_eq!(sup.processes[0].consecutive_failures, 1);
    assert_eq!(sup.processes[0].last_backoff_decrease, Some(5_000));
    // One failure: one more second, counted from the last decrease.
    sup.relax_backoff(5_999);
    assert_eq!(sup.processes[0].consecutive_failures, 1);
    sup.relax_backoff(6_000);
    assert_eq!(sup.processes[0].consecutive_failures, 0);
    sup.relax_backoff(100_000);
    assert_eq!(sup.processes[0].consecutive_failures, 0);
    assert_eq!(sup.processes[0].last_backoff_decrease, Some(6_000));
}

#[test]
fn test_graceful_shutdown_order() {
    let mut sup = supervisor("db shutdown=2s: sleep 100\napi after=db: sleep 100");
    start(&mut sup, 0);
    start(&mut sup, 0);
    assert!(sup.processes[0].is_running() && sup.processes[1].is_running());
    // Nothing is signalled before the interrupt.
    assert!(sup.shutdown_dispatch(5).is_empty());
    sup.intake_shutdown(false);
    assert!(!sup.shutting_down);
    sup.intake_shutdown(true);
    sup.intake_shutdown(false);
    assert!(sup.shutting_down);

    // `api` is signalled first; `db` waits for it to exit.
    let sent = sup.shutdown_dispatch(10);
    assert_eq!(sent.len(), 1);
    assert_eq!((sent[0].0, sent[0].1, sent[0].2), (1, 101, Signal::Term));
    assert_eq!(shown(&sent[0].3), line("api", ControlEvent::Stopped, "kill -TERM"));
    assert!(sup.shutdown_dispatch(20).is_empty());
    assert_eq!(sup.processes[1].reload_signal_sent, Some(10));
    assert_eq!(sup.processes[0].reload_signal_sent, None);

    let (lines, respawn) = sup.on_exit(1, ProcessStatus::Signaled(15), 30);
    assert!(!respawn);
    assert_eq!(lines.len(), 1);
    assert_eq!(shown(&lines[0]), line("api", ControlEvent::Stopped, "SIGTERM"));
    assert_eq!(sup.processes[1].scheduled_restart, None);

    let sent = sup.shutdown_dispatch(40);
    assert_eq!(sent.len(), 1);
    assert_eq!((sent[0].0, sent[0].1, sent[0].2), (0, 100, Signal::Term));
    assert!(sup.shutdown_dispatch(50).is_empty());

    // `db` outlives its grace of two seconds: it is killed, once.
    assert!(sup.kill_overdue(2_039).is_empty());
    let killed = sup.kill_overdue(2_040);
    assert_eq!(killed.len(), 1);
    assert_eq!((killed[0].0, killed[0].1), (0, 100));
    assert_eq!(shown(&killed[0].2), line("db", ControlEvent::Stopped, "kill -9"));
    assert!(sup.kill_overdue(9_999).is_empty());
    assert!(!sup.should_exit(false));
    let (lines, _) = sup.on_exit(0, ProcessStatus::Signaled(9), 2_050);
    assert_eq!(shown(&lines[0]), line("db", ControlEvent::Stopped, "SIGKILL"));
    assert!(sup.should_exit(true));
    assert!(sup.guard.pgids.is_empty());
}

#[test]
fn test_reload_that_overruns_its_grace_is_killed() {
    let mut sup = supervisor("api shutdown=100ms: run");
    start(&mut sup, 0);
    sup.on_reload("api", "x", 1_000).unwrap();
    assert!(sup.kill_overdue(1_099).is_empty());
    let killed = sup.kill_overdue(1_100);
    assert_eq!(killed.len(), 1);
    assert_eq!(killed[0].1, 100);
    assert!(sup.kill_overdue(1_200).is_empty());
    // The reload still completes when the child is gone.
    let (lines, respawn) = sup.on_exit(0, ProcessStatus::Signaled(9), 1_300);
    assert!(respawn);
    assert_eq!(shown(&lines[0]), line("api", ControlEvent::Restarting, "x"));
}

#[test]
fn test_probe_driver() {
    let mut sup = supervisor("db ready=5432: postgres\napi after=db: run");
    assert!(start(&mut sup, 0).is_empty());
    assert!(!sup.processes[0].is_ready);
    assert!(!sup.probe_due(1, 0));
    assert!(sup.probe_due(0, 0));
    assert_eq!(sup.processes[0].ready_probe_started, Some(0));
    assert!(sup.probe_result(0, false, 0).is_none());
    // At most one check in 250 ms.
    assert!(!sup.probe_due(0, 249));
    assert!(sup.probe_due(0, 250));
    assert!(sup.probe_result(0, false, 250).is_none());
    assert!(sup.ready_to_start().is_empty());
    // A notice every fifth second.
    assert!(sup.probe_result(0, false, 4_999).is_none());
    assert_eq!(
        shown(&sup.probe_result(0, false, 5_100).unwrap()),
        line("db", ControlEvent::TimedOut, "probe pending (5s)")
    );
    assert!(sup.probe_result(0, false, 5_300).is_none());
    assert!(sup.probe_result(0, false, 6_000).is_none());
    assert_eq!(
        shown(&sup.probe_result(0, false, 10_299).unwrap()),
        line("db", ControlEvent::TimedOut, "probe pending (10s)")
    );
    assert!(sup.probe_due(0, 12_000));
    assert_eq!(
        shown(&sup.probe_result(0, true, 12_000).unwrap()),
        line("db", ControlEvent::Ready, "probe passed")
    );
    assert!(sup.processes[0].is_ready);
    assert_eq!(sup.processes[0].ready_probe_started, None);
    assert!(!sup.probe_due(0, 13_000));
    assert_eq!(sup.ready_to_start(), vec![1]);
    assert_eq!(
        start(&mut sup, 12_000),
        vec![line("api", ControlEvent::Ready, "started (after db)")]
    );
}

#[test]
fn test_probe_timeout_aborts_startup() {
    let mut sup = supervisor("db ready=http:80/up=200: serve");
    start(&mut sup, 1_000);
    assert!(sup.probe_due(0, 1_000));
    assert!(sup.probe_result(0, false, 30_999).is_none());
    assert!(!sup.shutting_down);
    assert_eq!(
        shown(&sup.probe_result(0, false, 31_000).unwrap()),
        line("db", ControlEvent::TimedOut, "probe timed out after 30s (aborting)")
    );
    assert!(sup.shutting_down);
    assert!(!sup.processes[0].is_ready);
    assert_eq!(sup.processes[0].ready_probe_started, None);
}

#[test]
fn test_spawn_failure_lines() {
    let mut sup = supervisor("api: run\nweb after=api: serve");
    assert_eq!(
        shown(&sup.on_spawn_failed(0, "no such shell", false)),
        line("api", ControlEvent::Crashed, "failed to start: no such shell")
    );
    // The failure is final: the process is not tried again, and what
    // depends on it never starts.
    assert!(sup.processes[0].started);
    assert!(!sup.processes[0].is_ready);
    assert!(sup.ready_to_start().is_empty());
    assert_eq!(
        shown(&sup.on_spawn_failed(0, "no such shell", true)),
        line("api", ControlEvent::Crashed, "failed to restart: no such shell")
    );
    assert!(sup.should_exit(false));
}

#[test]
fn test_failed_restart_is_not_scheduled_again() {
    let mut sup = supervisor("api: run");
    start(&mut sup, 0);
    sup.on_exit(0, ProcessStatus::Failed(1), 0);
    assert_eq!(sup.due_restarts(1_000), vec![0]);
    sup.on_spawn_failed(0, "gone", true);
    assert!(sup.due_restarts(1_000).is_empty());
    assert_eq!(sup.processes[0].consecutive_failures, 1);
}

#[test]
fn test_started_message_names_the_dependencies_once() {
    let mut sup = supervisor("a: 1\nb: 2\nc after=b,a,b: 3");
    start(&mut sup, 0);
    assert_eq!(
        start(&mut sup, 0),
        vec![line("c", ControlEvent::Ready, "started (after b, a)")]
    );
}

#[test]
fn test_exit_during_shutdown() {
    let mut sup = supervisor("job!: work\napi **/*: run");
    start(&mut sup, 0);
    sup.on_reload("api", "x", 5).unwrap();
    sup.intake_shutdown(true);
    // No restart and no abort while shutting down.
    let (lines, respawn) = sup.on_exit(1, ProcessStatus::Failed(3), 10);
    assert!(!respawn);
    assert_eq!(lines.len(), 1);
    assert_eq!(shown(&lines[0]), line("api", ControlEvent::Stopped, "exit 3"));
    assert_eq!(sup.processes[1].consecutive_failures, 0);
    assert_eq!(sup.processes[1].scheduled_restart, None);
    let (lines, _) = sup.on_exit(0, ProcessStatus::Unknown, 10);
    assert_eq!(shown(&lines[0]), line("job", ControlEvent::Stopped, "exit ?"));
    assert!(sup.should_exit(true));
}

#[test]
fn test_guard_tracks_the_running_groups() {
    let mut guard = ShutdownGuard::new();
    guard.track(10);
    guard.track(11);
    guard.track(10);
    assert_eq!(guard.pgids, vec![10, 11]);
    assert!(guard.is_tracked(11));
    assert_eq!(guard.to_kill(), vec![10, 11]);
    guard.untrack(10);
    guard.untrack(99);
    assert_eq!(guard.pgids, vec![11]);
    assert!(!guard.is_tracked(10));
    guard.disarm();
    assert!(guard.to_kill().is_empty());
    assert_eq!(guard.pgids, vec![11]);

    let mut sup = supervisor("a: 1\nb: 2");
    start(&mut sup, 0);
    assert_eq!(sup.guard.to_kill(), vec![100, 101]);
    sup.on_exit(0, ProcessStatus::Success, 1);
    assert_eq!(sup.guard.to_kill(), vec![101]);
}

#[test]
fn test_status_text() {
    assert_eq!(ProcessStatus::Success.to_string(), "exit 0");
    assert_eq!(ProcessStatus::Failed(42).to_string(), "exit 42");
    assert_eq!(ProcessStatus::Failed(-1).to_string(), "exit -1");
    assert_eq!(ProcessStatus::Failed(i32::MIN).to_string(), "exit -2147483648");
    assert_eq!(ProcessStatus::Signaled(1).to_string(), "SIGHUP");
    assert_eq!(ProcessStatus::Signaled(2).to_string(), "SIGINT");
    assert_eq!(ProcessStatus::Signaled(9).to_string(), "SIGKILL");
    assert_eq!(ProcessStatus::Signaled(15).to_string(), "SIGTERM");
    assert_eq!(ProcessStatus::Signaled(17).to_string(), "SIGCHLD");
    assert_eq!(ProcessStatus::Signaled(19).to_string(), "SIGSTOP");
    assert_eq!(ProcessStatus::Signaled(11).to_string(), "signal 11");
    assert_eq!(ProcessStatus::Unknown.to_string(), "exit ?");
}

#[test]
fn test_new_process_state() {
    let def = parse("api: run").unwrap().processes.remove(0);
    let p = ManagedProcess::new(def.clone());
    assert_eq!(p.def, def);
    assert!(!p.is_running() && !p.started && !p.is_ready && !p.reloading);
    assert_eq!(p.calculate_backoff(), 0);
    assert_eq!(p.consecutive_failures, 0);
}

#[test]
fn test_orchestrator_holds_the_manifest() {
    let procfile = parse("A=1\napi: run").unwrap();
    let orchestrator = Orchestrator::new(procfile.clone(), "/srv".to_string());
    assert_eq!(orchestrator.procfile, procfile);
    assert_eq!(orchestrator.base_dir, "/srv");
}
