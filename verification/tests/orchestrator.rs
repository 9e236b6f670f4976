use proctor::orchestrator::{backoff_for_failures, signal_name_short};
use proctor::parser::ast::{Signal, TimeSpan};

#[test]
fn test_backoff_calculation() {
    // No failures = no backoff
    assert_eq!(backoff_for_failures(0), TimeSpan::from_millis(0));

    // First failure = 1s
    assert_eq!(backoff_for_failures(1), TimeSpan::from_secs(1));

    // Second failure = 2s
    assert_eq!(backoff_for_failures(2), TimeSpan::from_secs(2));

    // Third failure = 4s
    assert_eq!(backoff_for_failures(3), TimeSpan::from_secs(4));

    // Fourth failure = 8s
    assert_eq!(backoff_for_failures(4), TimeSpan::from_secs(8));

    // Fifth failure = 16s
    assert_eq!(backoff_for_failures(5), TimeSpan::from_secs(16));

    // Sixth+ failure = 32s (capped)
    assert_eq!(backoff_for_failures(6), TimeSpan::from_secs(32));

    assert_eq!(backoff_for_failures(10), TimeSpan::from_secs(32));
    assert_eq!(backoff_for_failures(u32::MAX), TimeSpan::from_secs(32));
}

#[test]
fn test_signal_short_names() {
    assert_eq!(signal_name_short(Signal::Term), "TERM");
    assert_eq!(signal_name_short(Signal::Kill), "9");
    assert_eq!(signal_name_short(Signal::Usr2), "USR2");
}
