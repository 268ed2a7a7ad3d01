use dsh_desktop::logs::{is_frontend_log_line, redact_diagnostic_text, tail_bytes};

#[test]
fn frontend_line_detected() {
    assert!(is_frontend_log_line(
        "2024-06-01 12:00:00.123Z INFO frontend: [tag] message"
    ));
    assert!(is_frontend_log_line(
        "[2024-06-01 12:00:00.123Z] INFO frontend: message"
    ));
    assert!(is_frontend_log_line(
        "2024-06-01 12:00:00.123Z WARN frontend: something"
    ));
    assert!(is_frontend_log_line(
        "2024-06-01 12:00:00.123Z ERROR frontend: boom"
    ));
}

#[test]
fn backend_line_not_detected() {
    assert!(!is_frontend_log_line(
        "2024-06-01 12:00:00.123Z INFO dsh: starting server"
    ));
    assert!(!is_frontend_log_line(
        "[2024-06-01 12:00:00.123Z] INFO dsh: emit to frontend: 3"
    ));
    assert!(!is_frontend_log_line(
        "2024-06-01 12:00:00.123Z DEBUG reqwest: GET /ping"
    ));
}

#[test]
fn frontend_level_padding_and_extra_spaces() {
    assert!(is_frontend_log_line(
        "2024-06-01 12:00:00.123Z  INFO frontend: padded"
    ));
}

#[test]
fn trace_and_debug_frontend_lines_are_detected() {
    assert!(is_frontend_log_line("  TRACE frontend: x"));
    assert!(is_frontend_log_line("DEBUG frontend: y"));
    assert!(!is_frontend_log_line("INFO frontend-x: y"));
    assert!(!is_frontend_log_line(""));
}

#[test]
fn tail_bytes_keeps_ascii_within_limit() {
    assert_eq!(tail_bytes("hello world", 5), "world");
    assert_eq!(tail_bytes("abc", 2), "bc");
}

#[test]
fn tail_bytes_advances_to_char_boundary() {
    assert_eq!(tail_bytes("中a", 2), "a");
    assert_eq!(tail_bytes("😀x", 3), "x");
    assert_eq!(tail_bytes("中文abc", 3), "abc");
}

#[test]
fn tail_bytes_shorter_than_limit_returns_whole() {
    assert_eq!(tail_bytes("中文", 10), "中文");
    assert_eq!(tail_bytes("", 10), "");
}

#[test]
fn tail_bytes_zero_limit_is_empty() {
    assert_eq!(tail_bytes("abc", 0), "");
    assert_eq!(tail_bytes("中", 2), "");
}

#[test]
fn diagnostic_bundle_redacts_paths_and_secrets() {
    let root = r"C:\Users\person\AppData\Desktop".to_string();
    let home = r"C:\Users\person".to_string();
    let text = r"C:\Users\person\AppData\Desktop\logs C:\Users\person\bin token=abc Authorization:Bearer-123";
    let redacted = redact_diagnostic_text(
        text,
        &vec![
            (root, "<APP_DATA>".to_string()),
            (home, "<USER_HOME>".to_string()),
        ],
    );
    assert!(redacted.contains("<APP_DATA>\\logs"));
    assert!(redacted.contains("<USER_HOME>\\bin"));
    assert!(!redacted.contains("person"));
    assert!(!redacted.contains("abc"));
    assert!(!redacted.contains("Bearer-123"));
}

#[test]
fn redaction_uses_longest_root_first_and_slash_spelling() {
    let roots = vec![
        ("C:\\a".to_string(), "<A>".to_string()),
        ("C:\\a\\b".to_string(), "<B>".to_string()),
        (String::new(), "<EMPTY>".to_string()),
    ];
    assert_eq!(
        redact_diagnostic_text("C:\\a\\b\\x C:/a/y password = hunter2, z", &roots),
        "<B>\\x <A>/y password = <REDACTED>, z"
    );
}
