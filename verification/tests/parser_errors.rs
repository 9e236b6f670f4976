use proctor::parser::ast::{ReadyProbe, Signal, TimeSpan};
use proctor::parser::declaration::{is_valid_name, parse_declaration};
use proctor::parser::number::{decimal, parse_uint};
use proctor::parser::options::{parse_duration, parse_ready_probe, ParseError};
use proctor::parser::parse;

fn chars(s: &str) -> Vec<char> {
    s.chars().collect()
}

#[test]
fn test_syntax_errors_carry_the_line() {
    let err = parse("a: x\n\n# note\nb 'unterminated: y\n").unwrap_err();
    assert_eq!(
        err,
        ParseError {
            line: 4,
            message: "unterminated quoted string".to_string()
        }
    );
    assert_eq!(err.to_string(), "4: unterminated quoted string");

    let err = parse("a: x\nb\n").unwrap_err();
    assert_eq!((err.line, err.message.as_str()), (2, "missing ':' separator"));

    let err = parse(": x").unwrap_err();
    assert_eq!(
        (err.line, err.message.as_str()),
        (1, "missing process name before ':'")
    );

    let err = parse("a: x\nb %: y").unwrap_err();
    assert_eq!((err.line, err.message.as_str()), (2, "unexpected character"));
}

#[test]
fn test_declaration_errors_carry_the_line() {
    let err = parse("a: x\nb.c: y").unwrap_err();
    assert_eq!((err.line, err.message.as_str()), (2, "invalid process name: b.c"));

    let err = parse("\n\n!: y").unwrap_err();
    assert_eq!((err.line, err.message.as_str()), (3, "invalid process name: "));

    let err = parse("a colour=red: x").unwrap_err();
    assert_eq!((err.line, err.message.as_str()), (1, "unknown option: colour"));

    let err = parse("a debounce=5: x").unwrap_err();
    assert_eq!((err.line, err.message.as_str()), (1, "invalid duration: 5"));

    let err = parse("a shutdown=tens: x").unwrap_err();
    assert_eq!((err.line, err.message.as_str()), (1, "invalid duration: tens"));

    let err = parse("a signal=STOP: x").unwrap_err();
    assert_eq!((err.line, err.message.as_str()), (1, "invalid signal: STOP"));

    let err = parse("a ready=70000: x").unwrap_err();
    assert_eq!(
        (err.line, err.message.as_str()),
        (1, "invalid ready probe format: 70000")
    );

    let err = parse("a ready=http:x/y: x").unwrap_err();
    assert_eq!(
        (err.line, err.message.as_str()),
        (1, "invalid port in ready probe: x")
    );

    let err = parse("a ready=http:80/y=ok: x").unwrap_err();
    assert_eq!(
        (err.line, err.message.as_str()),
        (1, "invalid status code in ready probe: ok")
    );

    let err = parse("x: y\na:").unwrap_err();
    assert_eq!((err.line, err.message.as_str()), (2, "missing command"));

    let err = parse("a:\n\n\nb: x").unwrap_err();
    assert_eq!((err.line, err.message.as_str()), (1, "missing command"));
}

#[test]
fn test_validation_errors_have_no_line() {
    let err = parse("a: 1\nb: 2\nb: 3\na: 4").unwrap_err();
    assert_eq!((err.line, err.message.as_str()), (0, "duplicate process name: b"));
    assert_eq!(err.to_string(), " duplicate process name: b");

    let err = parse("a after=b,zz,yy: 1\nb after=qq: 2").unwrap_err();
    assert_eq!(
        (err.line, err.message.as_str()),
        (0, "process 'a' depends on unknown process 'zz'")
    );
}

#[test]
fn test_cycle_message_names_every_participant() {
    let err = parse("a after=b: 1\nb after=c: 2\nc after=a: 3").unwrap_err();
    assert_eq!(err.line, 0);
    assert_eq!(err.message, "circular dependency: a -> b -> c -> a");

    // The path that leads into the cycle is no part of it.
    let err = parse("start after=x: 0\nx after=y: 1\ny after=x: 2").unwrap_err();
    assert_eq!(err.message, "circular dependency: x -> y -> x");

    let err = parse("self after=self: 1").unwrap_err();
    assert_eq!(err.message, "circular dependency: self -> self");
}

#[test]
fn test_trailing_newlines_and_blank_separators_change_nothing() {
    let plain = parse("A=1\ndb: postgres\napi after=db: run").unwrap();
    for variant in [
        "A=1\ndb: postgres\napi after=db: run\n",
        "A=1\ndb: postgres\napi after=db: run\n\n\n",
        "\n\nA=1\n\n\ndb: postgres\n   \n\t\napi after=db: run\n  ",
        "A=1\r\ndb: postgres\r\napi after=db: run\r\n",
        "# first\nA=1\n  # second\ndb: postgres\n#third\napi after=db: run",
    ] {
        assert_eq!(parse(variant).unwrap(), plain);
    }
    // Deterministic: the same text, the same manifest.
    assert_eq!(parse("db: postgres").unwrap(), parse("db: postgres").unwrap());
}

#[test]
fn test_empty_manifest() {
    let procfile = parse("").unwrap();
    assert!(procfile.processes.is_empty());
    assert!(procfile.global_env.is_empty());
    assert!(parse("\n# nothing\n   \n").unwrap().processes.is_empty());
}

#[test]
fn test_defaults() {
    let procfile = parse("api: run").unwrap();
    let options = &procfile.processes[0].options;
    assert!(options.after.is_empty());
    assert_eq!(options.ready, None);
    assert_eq!(options.signal, Signal::Term);
    assert_eq!(options.debounce, TimeSpan::from_millis(500));
    assert_eq!(options.dir, None);
    assert_eq!(options.shutdown, TimeSpan::from_secs(5));
    assert!(procfile.processes[0].watch_patterns.is_empty());
}

#[test]
fn test_durations() {
    assert_eq!(parse_duration("0ms", 0), Ok(TimeSpan { millis: 0 }));
    assert_eq!(parse_duration("250ms", 0), Ok(TimeSpan { millis: 250 }));
    assert_eq!(parse_duration("3s", 0), Ok(TimeSpan { millis: 3_000 }));
    assert_eq!(parse_duration("2m", 0), Ok(TimeSpan { millis: 120_000 }));
    assert_eq!(parse_duration("+7s", 0), Ok(TimeSpan { millis: 7_000 }));
    assert_eq!(
        parse_duration("18446744073709551615m", 0),
        Ok(TimeSpan {
            millis: 18446744073709551615u128 * 60_000
        })
    );
    for bad in ["", "s", "ms", "m", "5", "5h", "-5s", "5 s", "1.5s", "18446744073709551616s", "5S"] {
        assert_eq!(
            parse_duration(bad, 9),
            Err(ParseError {
                line: 9,
                message: format!("invalid duration: {}", bad)
            })
        );
    }
}

#[test]
fn test_probes() {
    assert_eq!(parse_ready_probe("0", 0), Ok(ReadyProbe::Tcp { port: 0 }));
    assert_eq!(parse_ready_probe("65535", 0), Ok(ReadyProbe::Tcp { port: 65535 }));
    assert!(parse_ready_probe("65536", 0).is_err());
    assert_eq!(
        parse_ready_probe("http:80", 0),
        Ok(ReadyProbe::Http {
            port: 80,
            path: "/".to_string(),
            expected_status: None
        })
    );
    // The status stands behind the last `=`; the path keeps the others.
    assert_eq!(
        parse_ready_probe("http:80/a=b/c=204", 0),
        Ok(ReadyProbe::Http {
            port: 80,
            path: "/a=b/c".to_string(),
            expected_status: Some(204)
        })
    );
    assert_eq!(
        parse_ready_probe("exec:  pg_isready -q \t", 0),
        Ok(ReadyProbe::Exec {
            command: "pg_isready -q".to_string()
        })
    );
    assert_eq!(
        parse_ready_probe("exec: \t ", 3),
        Err(ParseError {
            line: 3,
            message: "exec probe requires a command".to_string()
        })
    );
    assert!(parse_ready_probe("", 0).is_err());
    assert!(parse_ready_probe("tcp:80", 0).is_err());
}

#[test]
fn test_signals_in_any_case() {
    for (name, signal) in [
        ("HUP", Signal::Hup),
        ("sighup", Signal::Hup),
        ("Int", Signal::Int),
        ("SIGINT", Signal::Int),
        ("term", Signal::Term),
        ("SigTerm", Signal::Term),
        ("KILL", Signal::Kill),
        ("sigkill", Signal::Kill),
        ("usr1", Signal::Usr1),
        ("SIGUSR1", Signal::Usr1),
        ("USR2", Signal::Usr2),
        ("sigusr2", Signal::Usr2),
    ] {
        assert_eq!(Signal::from_str(name), Some(signal));
    }
    assert_eq!(Signal::from_str(""), None);
    assert_eq!(Signal::from_str("SIG"), None);
    assert_eq!(Signal::from_str("SIGSTOP"), None);
    assert_eq!(Signal::from_str("TERM "), None);
    // Upper case is what the name is compared in.
    assert_eq!(Signal::from_upper("TERM"), Some(Signal::Term));
    assert_eq!(Signal::from_upper("term"), None);
}

#[test]
fn test_names() {
    assert!(is_valid_name("api"));
    assert!(is_valid_name("a-b_c9"));
    assert!(is_valid_name("-"));
    assert!(!is_valid_name(""));
    assert!(!is_valid_name("a.b"));
    assert!(!is_valid_name("a b"));
    assert!(!is_valid_name("é"));
    assert!(!is_valid_name("a!"));
}

#[test]
fn test_declaration_walk() {
    let tokens: Vec<String> = ["web!", "src/**", "!dist/**", "dir", "=", "app", "after", "=", "a, b ,c", "x"]
        .iter()
        .map(|t| t.to_string())
        .collect();
    let def = parse_declaration(&tokens, "build", 7).unwrap();
    assert_eq!(def.name, "web");
    assert!(def.oneshot);
    assert_eq!(def.command, "build");
    assert_eq!(def.options.dir, Some("app".to_string()));
    assert_eq!(def.options.after, vec!["a", "b", "c"]);
    let patterns: Vec<(&str, bool)> = def
        .watch_patterns
        .iter()
        .map(|p| (p.pattern.as_str(), p.exclude))
        .collect();
    assert_eq!(patterns, vec![("src/**", false), ("dist/**", true), ("x", false)]);

    // A key and `=` with nothing behind them are two patterns.
    let tokens: Vec<String> = ["web", "dir", "="].iter().map(|t| t.to_string()).collect();
    let def = parse_declaration(&tokens, "run", 1).unwrap();
    assert_eq!(def.watch_patterns.len(), 2);

    let err = parse_declaration(&vec![], "run", 5).unwrap_err();
    assert_eq!((err.line, err.message.as_str()), (5, "missing process name"));
}

#[test]
fn test_numbers() {
    assert_eq!(parse_uint(&chars("0"), 10), Some(0));
    assert_eq!(parse_uint(&chars("0010"), 10), Some(10));
    assert_eq!(parse_uint(&chars("11"), 10), None);
    assert_eq!(parse_uint(&chars("+"), 10), None);
    assert_eq!(parse_uint(&chars(""), 10), None);
    assert_eq!(parse_uint(&chars("1_0"), 100), None);
    assert_eq!(parse_uint(&chars("٣"), 100), None);
    assert_eq!(
        parse_uint(&chars("18446744073709551615"), u64::MAX),
        Some(u64::MAX)
    );
    assert_eq!(parse_uint(&chars("18446744073709551616"), u64::MAX), None);
    assert_eq!(parse_uint(&chars("7"), 5), None);
    for n in [0u64, 7, 10, 99, 100, 65535, u64::MAX] {
        let written: String = decimal(n).iter().collect();
        assert_eq!(written, n.to_string());
        assert_eq!(parse_uint(&decimal(n), u64::MAX), Some(n));
    }
}

#[test]
fn test_global_env_later_assignment_wins() {
    let procfile = parse("A=1\nA=2\napi: x").unwrap();
    assert_eq!(procfile.global_env.get("A"), Some(&"2".to_string()));
    assert_eq!(procfile.global_env.get("B"), None);
    assert!(!procfile.global_env.is_empty());
}

#[test]
fn test_env_value_forms() {
    let procfile = parse("A=\nB=a:b\nC='it''s'\napi: x").unwrap_err();
    // `C='it''s'` is no assignment (text follows the closing quote) and no
    // process line either.
    assert_eq!(procfile.line, 3);
    let procfile = parse("A=\nB=a:b\napi: x").unwrap();
    assert_eq!(procfile.global_env.get("A"), Some(&"".to_string()));
    assert_eq!(procfile.global_env.get("B"), Some(&"a:b".to_string()));
}

#[test]
fn test_line_feed_at_the_end_changes_nothing() {
    for manifest in [
        "",
        "api",
        "api:",
        "api: run",
        "api: run  ",
        "A=1",
        "A='x y'",
        "# only a comment",
        "api:\n    one\n    two",
        "api:\n    one\n\n    two\n   ",
        "api:\n    one\n\t",
        "api 'open: x",
        "a after=b: 1\nb after=a: 2",
        "a ready=exec:",
        "   ",
    ] {
        let with = format!("{}\n", manifest);
        assert_eq!(parse(&with), parse(manifest));
    }
    // A backslash at the end joins the line that is added.
    assert_eq!(parse("api: a \\").unwrap().processes[0].command, "a \\");
    assert_eq!(parse("api: a \\\n").unwrap().processes[0].command, "a ");
    // A carriage return at the end needs its line feed.
    assert!(parse("api: a\r").is_err());
    assert_eq!(parse("api: a\r\n").unwrap().processes[0].command, "a");
}

#[test]
fn test_block_drops_the_blank_lines_at_its_end() {
    let procfile = parse("api:\n  one\n\n  two\n\n  \n\t \nweb: x").unwrap();
    assert_eq!(procfile.processes[0].command, "one\n\ntwo");
    assert_eq!(procfile.processes[1].command, "x");
    let procfile = parse("api:\n  one\n   ").unwrap();
    assert_eq!(procfile.processes[0].command, "one");
}

#[test]
fn test_block_strips_the_common_indentation() {
    let procfile = parse("api:\n      deep\n    shallow\n\t\ttabs\n        deeper").unwrap();
    assert_eq!(
        procfile.processes[0].command,
        "    deep\n  shallow\ntabs\n      deeper"
    );
}
