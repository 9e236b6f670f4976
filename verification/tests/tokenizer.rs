use proctor::parser::command::{command_part, continued_line_content};
use proctor::parser::items::{
    global_env_line, parse_procfile, process_line, ProcfileItem, SyntaxErrorKind,
};
use proctor::parser::tokenizer::{
    double_quoted, is_separator, single_quoted, skip_colon, token_with_colon,
    tokenize_before_colon,
};

fn chars(s: &str) -> Vec<char> {
    s.chars().collect()
}

fn text(v: &[char]) -> String {
    v.iter().collect()
}

#[test]
fn test_single_quoted() {
    let input = chars("'hello world'");
    let (content, next) = single_quoted(&input, 0).unwrap();
    assert_eq!(text(&content), "hello world");
    assert_eq!(next, input.len());
}

#[test]
fn test_double_quoted() {
    let input = chars(r#""hello\nworld""#);
    assert_eq!(text(&double_quoted(&input, 0).unwrap().0), "hello\nworld");
}

#[test]
fn test_double_quoted_with_escaped_quote() {
    let input = chars(r#""say \"hi\"""#);
    assert_eq!(text(&double_quoted(&input, 0).unwrap().0), "say \"hi\"");
}

#[test]
fn test_tokenize_before_colon() {
    let input = chars("api **/*.go after=db: go run ./cmd");
    let (tokens, next) = tokenize_before_colon(&input, 0).unwrap();
    assert_eq!(tokens, vec!["api", "**/*.go", "after", "=", "db"]);
    assert_eq!(input[next], ':');
    assert_eq!(skip_colon(&input, next), Some(next + 1));
}

#[test]
fn test_glob_not_confused_with_key_value() {
    let input = chars("api src/*.go: cmd");
    let (tokens, _) = tokenize_before_colon(&input, 0).unwrap();
    assert_eq!(tokens, vec!["api", "src/*.go"]);
}

#[test]
fn test_token_with_embedded_colon() {
    let input = chars("ready=http:8080/health: cmd");
    let (tokens, _) = tokenize_before_colon(&input, 0).unwrap();
    assert_eq!(tokens, vec!["ready", "=", "http:8080/health"]);
}

#[test]
fn test_token_with_trailing_colon() {
    // exec: followed by line separator should produce "exec:" as token
    let input = chars("ready=exec:: ./api");
    let (tokens, _) = tokenize_before_colon(&input, 0).unwrap();
    assert_eq!(tokens, vec!["ready", "=", "exec:"]);
}

#[test]
fn test_global_env_line() {
    let input = chars("FOO=bar\n");
    let (key, value, next) = global_env_line(&input, 0).unwrap();
    assert_eq!(
        ProcfileItem::GlobalEnv { key, value },
        ProcfileItem::GlobalEnv {
            key: "FOO".to_string(),
            value: "bar".to_string()
        }
    );
    assert_eq!(next, input.len());
}

#[test]
fn test_process_line_simple() {
    let input = chars("api: go run ./cmd/api\n");
    let (proc, _) = process_line(&input, 0).unwrap();
    assert_eq!(proc.declaration_tokens, vec!["api"]);
    assert_eq!(proc.command, "go run ./cmd/api");
}

#[test]
fn test_multiline_block() {
    let input = chars("api:\n    echo hello\n    echo world\n");
    let (proc, _) = process_line(&input, 0).unwrap();
    assert_eq!(proc.command, "echo hello\necho world");
}

#[test]
fn tokenizer_test_line_continuation() {
    let input = chars("api: go run \\\n  ./cmd/api\n");
    let (proc, _) = process_line(&input, 0).unwrap();
    assert_eq!(proc.command, "go run ./cmd/api");
}

#[test]
fn test_bare_word_tokenises_as_itself() {
    for word in [
        "api",
        "a_b-c/d.e*f?g[h]i{j}k!l,m",
        "**/*.go",
        "!vendor/**",
        "0123456789",
    ] {
        let input = chars(word);
        let (token, next) = token_with_colon(&input, 0).unwrap();
        assert_eq!(text(&token), word);
        assert_eq!(next, input.len());
    }
}

#[test]
fn test_quoted_strings_give_their_content() {
    let input = chars("'a b\\n\"c' tail");
    let (token, next) = token_with_colon(&input, 0).unwrap();
    // No escapes inside single quotes.
    assert_eq!(text(&token), "a b\\n\"c");
    assert_eq!(input[next], ' ');

    let input = chars(r#""a\\b\tc\rd" tail"#);
    let (token, _) = token_with_colon(&input, 0).unwrap();
    assert_eq!(text(&token), "a\\b\tc\rd");
}

#[test]
fn test_unterminated_and_bad_quotes() {
    assert!(single_quoted(&chars("'never closed"), 0).is_none());
    assert!(double_quoted(&chars("\"never closed"), 0).is_none());
    // Only \\ \" \n \t \r are escapes.
    assert!(double_quoted(&chars(r#""bad \x escape""#), 0).is_none());
    assert!(double_quoted(&chars("\"ends in backslash\\"), 0).is_none());
    assert!(single_quoted(&chars("x'a'"), 0).is_none());
    assert!(token_with_colon(&chars(""), 0).is_none());
    assert!(token_with_colon(&chars("''"), 0).is_none());
    assert!(token_with_colon(&chars("#"), 0).is_none());
}

#[test]
fn test_colon_is_a_separator_only_before_space_or_end() {
    assert!(is_separator(&chars("a: b"), 1));
    assert!(is_separator(&chars("a:\tb"), 1));
    assert!(is_separator(&chars("a:\nb"), 1));
    assert!(is_separator(&chars("a:\r\nb"), 1));
    assert!(is_separator(&chars("a:"), 1));
    assert!(!is_separator(&chars("a:b"), 1));
    assert!(!is_separator(&chars("a::"), 1));
    assert!(is_separator(&chars("a::"), 2));
    assert!(!is_separator(&chars("a: b"), 0));
    assert!(!is_separator(&chars("a"), 1));

    // Embedded colons join the pieces around them into one token.
    let input = chars("a:b:'c d':\"e\":f: cmd");
    let (tokens, next) = tokenize_before_colon(&input, 0).unwrap();
    assert_eq!(tokens, vec!["a:b:c d:e:f"]);
    assert_eq!(next, 15);
    // A token may start with a colon.
    let input = chars(":x: cmd");
    let (tokens, _) = tokenize_before_colon(&input, 0).unwrap();
    assert_eq!(tokens, vec![":x"]);
}

#[test]
fn test_tokenize_stops_at_end_without_colon() {
    let input = chars("api  **/*.go\t");
    let (tokens, next) = tokenize_before_colon(&input, 0).unwrap();
    assert_eq!(tokens, vec!["api", "**/*.go"]);
    assert_eq!(next, input.len());
    assert_eq!(skip_colon(&input, next), None);
    // A character that starts no token is reported by its position.
    assert_eq!(tokenize_before_colon(&chars("api #x: y"), 0), Err(4));
}

#[test]
fn test_continued_line() {
    let input = chars("a \\\n   b\\\n\tc \\x\\\r\n d\nnext");
    let (line, next) = continued_line_content(&input, 0);
    assert_eq!(text(&line), "a b c \\x d");
    assert_eq!(input[next], '\n');
    // A backslash first on the line still joins with a space.
    let (line, _) = continued_line_content(&chars("\\\nx"), 0);
    assert_eq!(text(&line), " x");
}

#[test]
fn test_command_part_forms() {
    let (cmd, next) = command_part(&chars("   echo hi  \nrest"), 0);
    assert_eq!(text(&cmd), "echo hi  ");
    assert_eq!(next, 13);
    let (cmd, _) = command_part(&chars("  "), 0);
    assert_eq!(text(&cmd), "");
    let input = chars("\n\t\tone\n\n\t\t\ttwo\n\t\tthree\n\n\nnext: x");
    let (cmd, next) = command_part(&input, 0);
    assert_eq!(text(&cmd), "one\n\n\ttwo\nthree");
    assert_eq!(text(&input[next..]), "next: x");
}

#[test]
fn test_items_in_document_order() {
    let input = chars("# c\n\nA=1\napi: run\n  \nB='x y'\nweb:\n  serve\n");
    let items = parse_procfile(&input).unwrap();
    assert_eq!(items.len(), 4);
    assert!(matches!(&items[0], ProcfileItem::GlobalEnv { key, value } if key == "A" && value == "1"));
    assert!(matches!(&items[1], ProcfileItem::Process(p) if p.line == 4 && p.command == "run"));
    assert!(matches!(&items[2], ProcfileItem::GlobalEnv { key, value } if key == "B" && value == "x y"));
    assert!(matches!(&items[3], ProcfileItem::Process(p) if p.line == 7 && p.command == "serve"));
}

#[test]
fn test_syntax_errors_by_kind_and_position() {
    let e = parse_procfile(&chars("api 'oops: cmd")).unwrap_err();
    assert_eq!((e.kind, e.pos), (SyntaxErrorKind::UnterminatedQuote, 4));
    let e = parse_procfile(&chars("ok: x\n: cmd")).unwrap_err();
    assert_eq!((e.kind, e.pos), (SyntaxErrorKind::EmptyDeclaration, 6));
    let e = parse_procfile(&chars("api")).unwrap_err();
    assert_eq!((e.kind, e.pos), (SyntaxErrorKind::MissingColon, 3));
    let e = parse_procfile(&chars("api\nweb: x")).unwrap_err();
    assert_eq!((e.kind, e.pos), (SyntaxErrorKind::MissingColon, 3));
    let e = parse_procfile(&chars("api $HOME: x")).unwrap_err();
    assert_eq!((e.kind, e.pos), (SyntaxErrorKind::UnexpectedCharacter, 4));
}
