use proctor::parser::ast::{ReadyProbe, Signal, TimeSpan};
use proctor::parser::parse;

#[test]
fn test_simple_process() {
    let input = "api: go run ./cmd/api";
    let procfile = parse(input).unwrap();
    assert_eq!(procfile.processes.len(), 1);
    assert_eq!(procfile.processes[0].name, "api");
    assert_eq!(procfile.processes[0].command, "go run ./cmd/api");
    assert!(!procfile.processes[0].oneshot);
}

#[test]
fn test_oneshot_process() {
    let input = "migrate!: just db migrate";
    let procfile = parse(input).unwrap();
    assert_eq!(procfile.processes.len(), 1);
    assert_eq!(procfile.processes[0].name, "migrate");
    assert!(procfile.processes[0].oneshot);
}

#[test]
fn test_with_glob() {
    let input = "api **/*.go: go run ./cmd/api";
    let procfile = parse(input).unwrap();
    assert_eq!(procfile.processes[0].watch_patterns.len(), 1);
    assert_eq!(procfile.processes[0].watch_patterns[0].pattern, "**/*.go");
    assert!(!procfile.processes[0].watch_patterns[0].exclude);
}

#[test]
fn test_with_bare_file_path() {
    let input = "echo Procfile: echo hello";
    let procfile = parse(input).unwrap();
    assert_eq!(procfile.processes[0].name, "echo");
    assert_eq!(procfile.processes[0].watch_patterns.len(), 1);
    assert_eq!(procfile.processes[0].watch_patterns[0].pattern, "Procfile");
    assert!(!procfile.processes[0].watch_patterns[0].exclude);
}

#[test]
fn test_with_exclude_glob() {
    let input = "api **/*.go !**_test.go: go run ./cmd/api";
    let procfile = parse(input).unwrap();
    assert_eq!(procfile.processes[0].watch_patterns.len(), 2);
    assert!(!procfile.processes[0].watch_patterns[0].exclude);
    assert!(procfile.processes[0].watch_patterns[1].exclude);
}

#[test]
fn test_with_options() {
    let input = "db: postgres\napi after=db debounce=1s: go run ./cmd/api";
    let procfile = parse(input).unwrap();
    assert_eq!(procfile.processes[1].options.after, vec!["db"]);
    assert_eq!(procfile.processes[1].options.debounce, TimeSpan::from_secs(1));
}

#[test]
fn test_with_env() {
    let input = "api: CGO_ENABLED=0 go run ./cmd/api";
    let procfile = parse(input).unwrap();
    assert_eq!(procfile.processes[0].command, "CGO_ENABLED=0 go run ./cmd/api");
}

#[test]
fn test_ready_probe_tcp() {
    let input = "db ready=5432: postgres";
    let procfile = parse(input).unwrap();
    assert_eq!(
        procfile.processes[0].options.ready,
        Some(ReadyProbe::Tcp { port: 5432 })
    );
}

#[test]
fn test_ready_probe_http() {
    let input = "api ready=http:8080/health: ./api";
    let procfile = parse(input).unwrap();
    assert_eq!(
        procfile.processes[0].options.ready,
        Some(ReadyProbe::Http {
            port: 8080,
            path: "/health".to_string(),
            expected_status: None,
        })
    );
}

#[test]
fn test_ready_probe_http_with_status() {
    let input = "api ready=http:8080/health=200: ./api";
    let procfile = parse(input).unwrap();
    assert_eq!(
        procfile.processes[0].options.ready,
        Some(ReadyProbe::Http {
            port: 8080,
            path: "/health".to_string(),
            expected_status: Some(200),
        })
    );
}

#[test]
fn test_ready_probe_http_with_status_no_path() {
    let input = "api ready=http:8080=201: ./api";
    let procfile = parse(input).unwrap();
    assert_eq!(
        procfile.processes[0].options.ready,
        Some(ReadyProbe::Http {
            port: 8080,
            path: "/".to_string(),
            expected_status: Some(201),
        })
    );
}

#[test]
fn test_ready_probe_exec() {
    let input = r#"api ready=exec:"pg_isready -h localhost": ./api"#;
    let procfile = parse(input).unwrap();
    assert_eq!(
        procfile.processes[0].options.ready,
        Some(ReadyProbe::Exec {
            command: "pg_isready -h localhost".to_string(),
        })
    );
}

#[test]
fn test_ready_probe_exec_single_quoted() {
    let input = "api ready=exec:'test -f /tmp/ready': ./api";
    let procfile = parse(input).unwrap();
    assert_eq!(
        procfile.processes[0].options.ready,
        Some(ReadyProbe::Exec {
            command: "test -f /tmp/ready".to_string(),
        })
    );
}

#[test]
fn test_ready_probe_exec_empty_error() {
    let input = "api ready=exec:: ./api";
    let err = parse(input).unwrap_err();
    assert!(err.message.contains("exec probe requires a command"));
}

#[test]
fn test_comments_and_blanks() {
    let input = r#"
# This is a comment
api: go run ./cmd/api

# Another comment
worker: go run ./cmd/worker
"#;
    let procfile = parse(input).unwrap();
    assert_eq!(procfile.processes.len(), 2);
}

#[test]
fn mod_test_line_continuation() {
    let input = "api: go run \\\n  -tags dev \\\n  ./cmd/api";
    let procfile = parse(input).unwrap();
    assert_eq!(procfile.processes[0].command, "go run -tags dev ./cmd/api");
}

#[test]
fn test_multiline_command_block() {
    let input = "api:\n    echo hello\n    echo world";
    let procfile = parse(input).unwrap();
    assert_eq!(procfile.processes[0].command, "echo hello\necho world");
}

#[test]
fn test_multiline_command_block_with_options() {
    let input = "api ready=8080:\n    go run ./cmd/api";
    let procfile = parse(input).unwrap();
    assert_eq!(procfile.processes[0].command, "go run ./cmd/api");
    assert_eq!(
        procfile.processes[0].options.ready,
        Some(ReadyProbe::Tcp { port: 8080 })
    );
}

#[test]
fn test_multiline_followed_by_another_process() {
    let input = "api:\n    echo hello\nworker: echo world";
    let procfile = parse(input).unwrap();
    assert_eq!(procfile.processes.len(), 2);
    assert_eq!(procfile.processes[0].command, "echo hello");
    assert_eq!(procfile.processes[1].command, "echo world");
}

#[test]
fn test_duplicate_name_error() {
    let input = "api: cmd1\napi: cmd2";
    let err = parse(input).unwrap_err();
    assert!(err.message.contains("duplicate"));
}

#[test]
fn test_circular_dep_error() {
    let input = "a after=b: cmd\nb after=a: cmd";
    let err = parse(input).unwrap_err();
    assert!(err.message.contains("circular"));
}

#[test]
fn test_unknown_dep_error() {
    let input = "api after=unknown: cmd";
    let err = parse(input).unwrap_err();
    assert!(err.message.contains("unknown process"));
}

#[test]
fn test_oneshot_with_ready_error() {
    let input = "migrate! ready=5432: just db migrate";
    let err = parse(input).unwrap_err();
    assert!(err.message.contains("one-shot") && err.message.contains("ready"));
}

#[test]
fn test_oneshot_with_watch_patterns() {
    let input = "migrate! **/*.sql !**/test_*.sql debounce=1s signal=INT: just db migrate";
    let procfile = parse(input).unwrap();
    assert_eq!(procfile.processes.len(), 1);
    assert!(procfile.processes[0].oneshot);
    assert_eq!(procfile.processes[0].watch_patterns.len(), 2);
    assert_eq!(procfile.processes[0].watch_patterns[0].pattern, "**/*.sql");
    assert!(!procfile.processes[0].watch_patterns[0].exclude);
    assert_eq!(procfile.processes[0].watch_patterns[1].pattern, "**/test_*.sql");
    assert!(procfile.processes[0].watch_patterns[1].exclude);
    assert_eq!(procfile.processes[0].options.debounce, TimeSpan::from_secs(1));
    assert_eq!(procfile.processes[0].options.signal, Signal::Int);
}

#[test]
fn test_oneshot_with_valid_options() {
    // after, dir, and shutdown are valid for one-shot processes
    let input = "init!: just db init\nmigrate! after=init dir=./db shutdown=10s: just db migrate";
    let procfile = parse(input).unwrap();
    assert_eq!(procfile.processes.len(), 2);
    assert!(procfile.processes[1].oneshot);
    assert_eq!(procfile.processes[1].options.after, vec!["init"]);
    assert_eq!(procfile.processes[1].options.dir, Some("./db".to_string()));
    assert_eq!(procfile.processes[1].options.shutdown, TimeSpan::from_secs(10));
}

#[test]
fn test_full_example() {
    let input = r#"
# Setup
init: just db init
migrate after=init: just db migrate

# Infrastructure
redis: redis-server
postgres ready=5432: docker run --rm -p 5432:5432 postgres:16

# Services
api **/*.go !**_test.go after=postgres debounce=500ms: CGO_ENABLED=0 go run ./cmd/api
"#;
    let procfile = parse(input).unwrap();
    assert_eq!(procfile.processes.len(), 5);

    let api = procfile.processes.iter().find(|p| p.name == "api").unwrap();
    assert_eq!(api.watch_patterns.len(), 2);
    assert_eq!(api.options.after, vec!["postgres"]);
    assert_eq!(api.options.debounce, TimeSpan::from_millis(500));
    assert_eq!(api.command, "CGO_ENABLED=0 go run ./cmd/api");
}

#[test]
fn test_global_env_bare() {
    let input = "MY_VAR=hello\napi: echo $MY_VAR";
    let procfile = parse(input).unwrap();
    assert_eq!(procfile.global_env.get("MY_VAR"), Some(&"hello".to_string()));
    assert_eq!(procfile.processes.len(), 1);
}

#[test]
fn test_global_env_single_quoted() {
    let input = "MY_VAR='hello world'\napi: echo $MY_VAR";
    let procfile = parse(input).unwrap();
    assert_eq!(procfile.global_env.get("MY_VAR"), Some(&"hello world".to_string()));
}

#[test]
fn test_global_env_double_quoted() {
    let input = "MY_VAR=\"hello world\"\napi: echo $MY_VAR";
    let procfile = parse(input).unwrap();
    assert_eq!(procfile.global_env.get("MY_VAR"), Some(&"hello world".to_string()));
}

#[test]
fn test_global_env_double_quoted_escapes() {
    let input = "MY_VAR=\"hello\\nworld\"\napi: echo $MY_VAR";
    let procfile = parse(input).unwrap();
    assert_eq!(procfile.global_env.get("MY_VAR"), Some(&"hello\nworld".to_string()));
}

#[test]
fn test_global_env_multiple() {
    let input = "FOO=bar\nBAZ=qux\napi: cmd";
    let procfile = parse(input).unwrap();
    assert_eq!(procfile.global_env.get("FOO"), Some(&"bar".to_string()));
    assert_eq!(procfile.global_env.get("BAZ"), Some(&"qux".to_string()));
}

#[test]
fn test_global_env_with_underscore() {
    let input = "_MY_VAR=value\napi: cmd";
    let procfile = parse(input).unwrap();
    assert_eq!(procfile.global_env.get("_MY_VAR"), Some(&"value".to_string()));
}

#[test]
fn test_global_env_mixed_with_processes() {
    let input = r#"
CGO_ENABLED=0
NODE_ENV=development

api: go run ./cmd/api
frontend: npm run dev
"#;
    let procfile = parse(input).unwrap();
    assert_eq!(procfile.global_env.get("CGO_ENABLED"), Some(&"0".to_string()));
    assert_eq!(procfile.global_env.get("NODE_ENV"), Some(&"development".to_string()));
    assert_eq!(procfile.processes.len(), 2);
}

#[test]
fn test_global_env_not_confused_with_process() {
    // Lines with colons are processes, not env vars
    let input = "api: MY_VAR=value cmd";
    let procfile = parse(input).unwrap();
    assert!(procfile.global_env.is_empty());
    assert_eq!(procfile.processes.len(), 1);
    assert_eq!(procfile.processes[0].command, "MY_VAR=value cmd");
}
