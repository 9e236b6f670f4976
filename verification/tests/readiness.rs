use proctor::parser::ast::ReadyProbe;
use proctor::readiness::{
    check_exec, check_http, check_probe, check_tcp, http_request, is_ready, loopback_addresses,
    parse_http_status, response_ready, wait_for_ready, ProbeOutcome, ReadinessResult,
};

#[test]
fn test_tcp_probe_failure() {
    // Neither loopback address took the connection.
    assert!(!check_tcp(&vec![false, false]));
}

#[test]
fn test_tcp_probe_success() {
    assert!(check_tcp(&vec![true, false]));
}

#[test]
fn test_tcp_probe_ipv6_success() {
    assert!(check_tcp(&vec![false, true]));
}

#[test]
fn test_http_probe_failure() {
    // Nothing listens: no response from either address.
    assert!(!check_http(&vec![None, None], None));
}

#[test]
fn test_http_probe_success() {
    let response = "HTTP/1.0 200 OK\r\nContent-Length: 0\r\n\r\n".to_string();
    assert!(check_http(&vec![Some(response), None], None));
}

#[test]
fn test_http_probe_ipv6_success() {
    let response = "HTTP/1.0 200 OK\r\nContent-Length: 0\r\n\r\n".to_string();
    assert!(check_http(&vec![None, Some(response)], None));
}

#[test]
fn test_http_probe_5xx_rejected() {
    let response = "HTTP/1.0 503 Service Unavailable\r\nContent-Length: 0\r\n\r\n".to_string();
    assert!(!check_http(&vec![Some(response), None], None));
}

#[test]
fn test_http_probe_4xx_accepted() {
    let response = "HTTP/1.0 404 Not Found\r\nContent-Length: 0\r\n\r\n".to_string();
    assert!(check_http(&vec![Some(response), None], None));
}

#[test]
fn test_http_probe_exact_status_match() {
    let response = "HTTP/1.0 201 Created\r\nContent-Length: 0\r\n\r\n".to_string();
    assert!(check_http(&vec![Some(response), None], Some(201)));
}

#[test]
fn test_http_probe_exact_status_mismatch() {
    let response = "HTTP/1.0 200 OK\r\nContent-Length: 0\r\n\r\n".to_string();
    assert!(!check_http(&vec![Some(response), None], Some(201)));
}

#[test]
fn test_http_probe_exact_status_5xx() {
    let response = "HTTP/1.0 503 Service Unavailable\r\nContent-Length: 0\r\n\r\n".to_string();
    assert!(check_http(&vec![Some(response), None], Some(503)));
}

#[test]
fn test_parse_http_status() {
    assert_eq!(parse_http_status("HTTP/1.1 200 OK\r\n"), Some(200));
    assert_eq!(parse_http_status("HTTP/1.0 404 Not Found\r\n"), Some(404));
    assert_eq!(parse_http_status("HTTP/1.1 503 Service Unavailable\r\n"), Some(503));
    assert_eq!(parse_http_status("garbage"), None);
}

#[test]
fn test_parse_http_status_edges() {
    assert_eq!(parse_http_status(""), None);
    assert_eq!(parse_http_status("\n"), None);
    assert_eq!(parse_http_status("HTTP/1.1"), None);
    assert_eq!(parse_http_status("HTTP/1.1 abc"), None);
    assert_eq!(parse_http_status("HTTP/1.1 70000 Big"), None);
    assert_eq!(parse_http_status("   HTTP/1.1\t 204\r\nHTTP/1.1 500"), Some(204));
    assert_eq!(parse_http_status("HTTP/1.1 200"), Some(200));
    // The status is looked for on the first line alone.
    assert_eq!(parse_http_status("HTTP/1.1\n200 OK"), None);
    assert_eq!(parse_http_status("HTTP/1.1 +200 OK"), Some(200));
}

#[test]
fn test_response_ready() {
    assert!(response_ready("HTTP/1.0 499 x", None));
    assert!(!response_ready("HTTP/1.0 500 x", None));
    assert!(response_ready("HTTP/1.0 500 x", Some(500)));
    assert!(!response_ready("nonsense", Some(200)));
}

#[test]
fn test_exec_probe_success() {
    assert!(check_exec(Some(0)));
}

#[test]
fn test_exec_probe_failure() {
    assert!(!check_exec(Some(1)));
}

#[test]
fn test_exec_probe_with_failing_command() {
    assert!(!check_exec(Some(2)));
    // The command could not be run, or was ended by a signal.
    assert!(!check_exec(None));
}

#[test]
fn test_http_request_text() {
    assert_eq!(
        http_request(8080, "/health"),
        "GET /health HTTP/1.0\r\nHost: localhost:8080\r\nConnection: close\r\n\r\n"
    );
    assert_eq!(
        http_request(80, "status"),
        "GET /status HTTP/1.0\r\nHost: localhost:80\r\nConnection: close\r\n\r\n"
    );
    assert_eq!(
        http_request(65535, ""),
        "GET / HTTP/1.0\r\nHost: localhost:65535\r\nConnection: close\r\n\r\n"
    );
}

#[test]
fn test_loopback_addresses() {
    assert_eq!(loopback_addresses(5432), vec!["127.0.0.1:5432", "[::1]:5432"]);
    assert_eq!(loopback_addresses(0), vec!["127.0.0.1:0", "[::1]:0"]);
}

#[test]
fn test_probe_by_kind() {
    let tcp = ReadyProbe::Tcp { port: 1 };
    let http = ReadyProbe::Http {
        port: 1,
        path: "/".to_string(),
        expected_status: None,
    };
    let exec = ReadyProbe::Exec {
        command: "true".to_string(),
    };
    assert!(is_ready(&tcp, &ProbeOutcome::Tcp(vec![true])));
    assert!(!is_ready(&tcp, &ProbeOutcome::Exec(Some(0))));
    assert!(check_probe(
        &http,
        &ProbeOutcome::Http(vec![Some("HTTP/1.1 302 Found".to_string())])
    ));
    assert!(!check_probe(&http, &ProbeOutcome::Tcp(vec![true])));
    assert!(is_ready(&exec, &ProbeOutcome::Exec(Some(0))));
    assert!(!is_ready(&exec, &ProbeOutcome::Exec(Some(3))));
}

#[test]
fn test_wait_for_ready_immediate() {
    assert_eq!(wait_for_ready(0, true), Some(ReadinessResult::Ready));
}

#[test]
fn test_wait_for_ready_steps() {
    assert_eq!(wait_for_ready(0, false), None);
    assert_eq!(wait_for_ready(29_999, false), None);
    assert_eq!(wait_for_ready(29_999, true), Some(ReadinessResult::Ready));
    assert_eq!(wait_for_ready(30_000, true), Some(ReadinessResult::TimedOut));
    assert_eq!(wait_for_ready(30_000, false), Some(ReadinessResult::TimedOut));
}
