use proctor::orchestrator::matcher::{
    build_matchers, handle_event, normalize_pattern, FsEvent, FsEventKind,
};
use proctor::parser::ast::GlobPattern;

fn glob(pattern: &str, exclude: bool) -> GlobPattern {
    GlobPattern {
        pattern: pattern.to_string(),
        exclude,
    }
}

#[test]
fn test_build_matchers_empty() {
    let matchers = build_matchers(&vec![]).unwrap();
    assert!(matchers.is_empty());
}

#[test]
fn test_build_matchers_simple() {
    let matchers = build_matchers(&vec![("api".to_string(), vec![glob("**/*.go", false)])]).unwrap();

    assert_eq!(matchers.len(), 1);
    assert_eq!(matchers[0].name, "api");
}

#[test]
fn test_matcher_matches_include() {
    let matchers = build_matchers(&vec![("api".to_string(), vec![glob("**/*.go", false)])]).unwrap();

    assert!(matchers[0].matches("cmd/main.go"));
    assert!(matchers[0].matches("pkg/api/handler.go"));
    assert!(!matchers[0].matches("README.md"));
}

#[test]
fn test_matcher_matches_exclude() {
    let matchers = build_matchers(&vec![(
        "api".to_string(),
        vec![glob("**/*.go", false), glob("**/*_test.go", true)],
    )])
    .unwrap();

    assert!(matchers[0].matches("cmd/main.go"));
    assert!(!matchers[0].matches("cmd/main_test.go"));
}

#[test]
fn test_matcher_no_patterns() {
    let matchers = build_matchers(&vec![("api".to_string(), vec![])]).unwrap();

    assert!(!matchers[0].matches("anything.go"));
}

#[test]
fn test_matcher_vendor_exclusion() {
    let matchers = build_matchers(&vec![(
        "api".to_string(),
        vec![glob("**/*.go", false), glob("vendor/**", true)],
    )])
    .unwrap();

    assert!(matchers[0].matches("main.go"));
    assert!(matchers[0].matches("pkg/api.go"));
    assert!(!matchers[0].matches("vendor/lib/lib.go"));
}

#[test]
fn test_matcher_multiple_extensions() {
    let matchers = build_matchers(&vec![(
        "frontend".to_string(),
        vec![
            glob("**/*.ts", false),
            glob("**/*.tsx", false),
            glob("**/*.css", false),
        ],
    )])
    .unwrap();

    assert!(matchers[0].matches("src/app.ts"));
    assert!(matchers[0].matches("components/Button.tsx"));
    assert!(matchers[0].matches("styles/main.css"));
    assert!(!matchers[0].matches("README.md"));
}

#[test]
fn test_matcher_exact_file() {
    let matchers = build_matchers(&vec![("echo".to_string(), vec![glob("./test.txt", false)])]).unwrap();

    // Pattern ./test.txt is normalized to test.txt
    assert!(matchers[0].matches("test.txt"));
}

#[test]
fn test_matcher_only_excludes_matches_nothing() {
    let matchers = build_matchers(&vec![("api".to_string(), vec![glob("vendor/**", true)])]).unwrap();
    assert!(!matchers[0].matches("main.go"));
    assert!(!matchers[0].matches("vendor/x.go"));
}

#[test]
fn test_invalid_glob_is_reported() {
    let err = build_matchers(&vec![("api".to_string(), vec![glob("src/[", false)])])
        .err()
        .unwrap();
    assert!(err.starts_with("invalid glob pattern 'src/[': "));
    assert!(err.len() > "invalid glob pattern 'src/[': ".len());
}

#[test]
fn test_normalize_pattern() {
    assert_eq!(normalize_pattern("./src/*.go"), "src/*.go");
    assert_eq!(normalize_pattern("src/*.go"), "src/*.go");
    assert_eq!(normalize_pattern("././x"), "./x");
    assert_eq!(normalize_pattern("."), ".");
    assert_eq!(normalize_pattern(""), "");
}

fn event(kind: FsEventKind, paths: &[&str]) -> FsEvent {
    FsEvent {
        kind,
        paths: paths.iter().map(|p| p.to_string()).collect(),
    }
}

#[test]
fn test_event_raises_one_intent_per_process() {
    let matchers = build_matchers(&vec![
        ("api".to_string(), vec![glob("**/*.go", false)]),
        ("web".to_string(), vec![glob("**/*.ts", false)]),
        ("all".to_string(), vec![glob("**/*", false), glob("**/*.md", true)]),
    ])
    .unwrap();
    let intents = handle_event(
        &event(FsEventKind::Modify, &["README.md", "a.go", "b.go", "c.ts"]),
        &matchers,
    );
    let pairs: Vec<(&str, &str)> = intents
        .iter()
        .map(|e| (e.process.as_str(), e.path.as_str()))
        .collect();
    assert_eq!(pairs, vec![("api", "a.go"), ("web", "c.ts"), ("all", "a.go")]);
}

#[test]
fn test_event_kinds() {
    let matchers = build_matchers(&vec![("api".to_string(), vec![glob("**/*.go", false)])]).unwrap();
    assert_eq!(handle_event(&event(FsEventKind::Create, &["a.go"]), &matchers).len(), 1);
    assert_eq!(handle_event(&event(FsEventKind::Remove, &["a.go"]), &matchers).len(), 1);
    assert_eq!(handle_event(&event(FsEventKind::Modify, &["a.go"]), &matchers).len(), 1);
    assert!(handle_event(&event(FsEventKind::ModifyMetadata, &["a.go"]), &matchers).is_empty());
    assert!(handle_event(&event(FsEventKind::Other, &["a.go"]), &matchers).is_empty());
    assert!(handle_event(&event(FsEventKind::Modify, &["a.md"]), &matchers).is_empty());
    assert!(handle_event(&event(FsEventKind::Modify, &[]), &matchers).is_empty());
}
