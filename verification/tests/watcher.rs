use proctor::orchestrator::watcher::Debouncer;
use proctor::parser::ast::TimeSpan;

#[test]
fn test_debouncer_immediate() {
    let mut debouncer = Debouncer::new();
    debouncer.set_debounce("api", TimeSpan::from_millis(0));
    debouncer.record_event("api", "main.go", 1_000);

    let ready = debouncer.get_ready(1_000);
    assert_eq!(ready, vec![("api".to_string(), "main.go".to_string())]);
}

#[test]
fn test_debouncer_pending() {
    let mut debouncer = Debouncer::new();
    debouncer.set_debounce("api", TimeSpan::from_secs(10));
    debouncer.record_event("api", "main.go", 1_000);

    let ready = debouncer.get_ready(1_000);
    assert!(ready.is_empty());
}

#[test]
fn test_debouncer_multiple_events() {
    let mut debouncer = Debouncer::new();
    debouncer.set_debounce("api", TimeSpan::from_millis(0));
    debouncer.set_debounce("worker", TimeSpan::from_millis(0));

    debouncer.record_event("api", "main.go", 1_000);
    debouncer.record_event("worker", "worker.go", 1_000);

    let mut ready = debouncer.get_ready(1_000);
    ready.sort();
    assert_eq!(
        ready,
        vec![
            ("api".to_string(), "main.go".to_string()),
            ("worker".to_string(), "worker.go".to_string())
        ]
    );
}

#[test]
fn test_debouncer_updates_timestamp() {
    let mut debouncer = Debouncer::new();
    debouncer.set_debounce("api", TimeSpan::from_millis(50));

    debouncer.record_event("api", "main.go", 0);

    // Event not ready yet
    assert!(debouncer.get_ready(30).is_empty());

    // Record another event, resetting the debounce timer
    debouncer.record_event("api", "handler.go", 30);

    // Still not ready because timer was reset
    assert!(debouncer.get_ready(60).is_empty());

    // The path should be the last one recorded
    assert_eq!(
        debouncer.get_ready(90),
        vec![("api".to_string(), "handler.go".to_string())]
    );
}

#[test]
fn test_debouncer_default_is_half_a_second() {
    let mut debouncer = Debouncer::new();
    debouncer.record_event("api", "main.go", 100);
    assert!(debouncer.get_ready(599).is_empty());
    assert_eq!(
        debouncer.get_ready(600),
        vec![("api".to_string(), "main.go".to_string())]
    );
    // Taken out: nothing is pending any more.
    assert!(debouncer.get_ready(10_000).is_empty());
}

#[test]
fn test_debouncer_keeps_what_is_not_due() {
    let mut debouncer = Debouncer::new();
    debouncer.set_debounce("slow", TimeSpan::from_secs(1));
    debouncer.set_debounce("fast", TimeSpan::from_millis(10));
    debouncer.record_event("slow", "a.go", 0);
    debouncer.record_event("fast", "b.go", 0);
    assert_eq!(
        debouncer.get_ready(10),
        vec![("fast".to_string(), "b.go".to_string())]
    );
    assert_eq!(
        debouncer.get_ready(1_000),
        vec![("slow".to_string(), "a.go".to_string())]
    );
}

#[test]
fn test_debouncer_event_from_the_future_has_waited_no_time() {
    let mut debouncer = Debouncer::new();
    debouncer.set_debounce("api", TimeSpan::from_millis(1));
    debouncer.record_event("api", "main.go", 500);
    assert!(debouncer.get_ready(100).is_empty());
}
