use proctor::output::{
    color_for_hash, color_for_name, is_usable, usable_colors, ControlEvent, OutputFormatter,
    OutputLine, OutputSource, Tint,
};

#[test]
fn test_color_deterministic() {
    let c1 = color_for_name("api");
    let c2 = color_for_name("api");
    assert_eq!(c1, c2);
}

#[test]
fn test_color_different_names() {
    let c1 = color_for_name("api");
    let c2 = color_for_name("worker");
    // Different names should (usually) get different colors
    // This isn't guaranteed but is highly likely
    assert_ne!(c1, c2);
}

#[test]
fn test_prefix_alignment() {
    let formatter = OutputFormatter::new(&["api", "worker", "frontend"], false);

    let line = OutputLine {
        process: "api".to_string(),
        source: OutputSource::Stdout,
        content: "hello".to_string(),
    };

    let output = formatter.format(&line, "");
    // "frontend" is 8 chars, so "api" should be padded to 8
    // The output contains ANSI codes, so we check the structure
    assert!(output.contains("api"));
    assert!(output.contains("│"));
    assert!(output.contains("hello"));
}

#[test]
fn test_stderr_styling() {
    let formatter = OutputFormatter::new(&["test"], false);

    let stdout_line = OutputLine {
        process: "test".to_string(),
        source: OutputSource::Stdout,
        content: "out".to_string(),
    };

    let stderr_line = OutputLine {
        process: "test".to_string(),
        source: OutputSource::Stderr,
        content: "err".to_string(),
    };

    let stdout_output = formatter.format(&stdout_line, "");
    let stderr_output = formatter.format(&stderr_line, "");

    // Both should contain the content
    assert!(stdout_output.contains("out"));
    assert!(stderr_output.contains("err"));

    // Stderr should have different styling (dim/italic adds more ANSI codes)
    assert_ne!(stdout_output.len(), stderr_output.len());
}

#[test]
fn test_prefix_is_padded_to_the_longest_name() {
    let formatter = OutputFormatter::new(&["api", "worker", "frontend"], false);
    assert_eq!(formatter.max_name_len, 8);
    let line = OutputLine {
        process: "api".to_string(),
        source: OutputSource::Stdout,
        content: "hello".to_string(),
    };
    let output = formatter.format(&line, "");
    assert!(output.contains("     api │"));
    assert!(output.ends_with(" hello"));
}

#[test]
fn test_timestamp_column() {
    let formatter = OutputFormatter::new(&["api"], true);
    let line = OutputLine {
        process: "api".to_string(),
        source: OutputSource::Stdout,
        content: "hello".to_string(),
    };
    let output = formatter.format(&line, "1.25");
    assert!(output.contains("api │ 1.25 │"));
    let control = formatter.format_control("api", ControlEvent::Ready, "started", "1.25");
    assert!(control.contains("api │ 1.25 ●"));
    assert!(control.contains("started"));
}

#[test]
fn test_prefix_is_painted_in_the_colour_of_the_name() {
    let formatter = OutputFormatter::new(&["api"], false);
    let line = OutputLine {
        process: "api".to_string(),
        source: OutputSource::Stdout,
        content: "x".to_string(),
    };
    let output = formatter.format(&line, "");
    // The paint wrapper must do more than hand its argument back.
    assert_ne!(output, "api │ x");
    let code = format!("\u{1b}[38;5;{}m", color_for_name("api"));
    assert!(output.starts_with(&code));
}

#[test]
fn test_control_symbols() {
    assert_eq!(ControlEvent::Starting.symbol(), "▶");
    assert_eq!(ControlEvent::Ready.symbol(), "●");
    assert_eq!(ControlEvent::Finished.symbol(), "✔");
    assert_eq!(ControlEvent::Stopped.symbol(), "☠");
    assert_eq!(ControlEvent::Crashed.symbol(), "✘");
    assert_eq!(ControlEvent::Restarting.symbol(), "↻");
    assert_eq!(ControlEvent::TimedOut.symbol(), "⏱");
    assert_eq!(ControlEvent::Exec.symbol(), "$");
}

#[test]
fn test_control_colours() {
    assert_eq!(ControlEvent::Starting.color(), Tint::Cyan);
    assert_eq!(ControlEvent::Ready.color(), Tint::Green);
    assert_eq!(ControlEvent::Finished.color(), Tint::Green);
    assert_eq!(ControlEvent::Stopped.color(), Tint::Red);
    assert_eq!(ControlEvent::Crashed.color(), Tint::Red);
    assert_eq!(ControlEvent::Restarting.color(), Tint::Yellow);
    assert_eq!(ControlEvent::TimedOut.color(), Tint::Red);
    assert_eq!(ControlEvent::Exec.color(), Tint::Cyan);
}

#[test]
fn test_control_message_single_line() {
    let formatter = OutputFormatter::new(&["api", "db"], false);
    let output = formatter.format_control("db", ControlEvent::Crashed, "exit 1", "");
    assert!(output.contains(" db ✘"));
    assert!(output.contains("exit 1"));
    assert!(!output.contains('\n'));
    // Red message.
    assert!(output.contains("\u{1b}[31mexit 1"));
}

#[test]
fn test_control_message_multiline() {
    let formatter = OutputFormatter::new(&["api"], false);
    let output = formatter.format_control("api", ControlEvent::Exec, "one\ntwo\r\nthree\n", "");
    let lines: Vec<&str> = output.split('\n').collect();
    assert_eq!(lines.len(), 3);
    assert!(lines[0].contains("api $"));
    assert!(lines[0].contains("one"));
    assert!(lines[1].contains("    ↳"));
    assert!(lines[1].contains("two"));
    assert!(!lines[1].contains('\r'));
    assert!(lines[2].contains("↳"));
    assert!(lines[2].contains("three"));
}

#[test]
fn test_palette() {
    let colors = usable_colors();
    assert!(!colors.is_empty());
    for c in &colors {
        assert!(is_usable(*c));
        assert!(*c >= 17 && *c <= 231);
    }
    // Very dark, very light, reddish and dark blue cells are left out.
    assert!(!is_usable(16));
    assert!(!is_usable(17));
    assert!(!is_usable(231));
    assert!(!is_usable(196));
    assert!(!is_usable(21));
    assert!(is_usable(40));
    assert_eq!(colors.len(), (17u8..=231).filter(|c| is_usable(*c)).count());
    assert_eq!(color_for_hash(0), colors[0]);
    assert_eq!(color_for_hash(colors.len() as u64 + 2), colors[2]);
}
