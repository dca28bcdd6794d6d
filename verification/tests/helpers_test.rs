use prodlog::{
    base64_decode, base64_decode_string, base64_encode, compare_major_minor_versions,
    redact_passwords_from_entry, unescape_and_unquote_cmd, CaptureType, CaptureV2_4,
};

fn sample_capture() -> CaptureV2_4 {
    CaptureV2_4 {
        capture_type: CaptureType::Run,
        uuid: "11111111-2222-3333-4444-555555555555".to_string(),
        host: "web01".to_string(),
        cwd: "/root".to_string(),
        cmd: "echo hunter2".to_string(),
        start_time_ms: 1_700_000_000_000,
        duration_ms: 12,
        message: "".to_string(),
        is_noop: false,
        exit_code: 0,
        local_user: "ops".to_string(),
        remote_user: "".to_string(),
        filename: "".to_string(),
        terminal_rows: 24,
        terminal_cols: 80,
        task_id: None,
        captured_output: b"password is hunter2\n".to_vec(),
        original_content: Vec::new(),
        edited_content: Vec::new(),
    }
}

#[test]
fn test_unescape_and_unquote_cmd_simple() {
    // The command received from the prodlog script will have every element quoted and spaces and backslashes escaped.
    // This function unescapes the command and unquotes the elements if the do not contain special characters.
    assert_eq!(unescape_and_unquote_cmd("'ls' '-l'"), "ls -l");
    assert_eq!(unescape_and_unquote_cmd("'echo' 'hello\\ world'"), "echo 'hello world'");
    assert_eq!(unescape_and_unquote_cmd("'echo' '\\\\'"), "echo '\\'");
}

#[test]
fn test_unescape_empty_and_plain() {
    assert_eq!(unescape_and_unquote_cmd(""), "");
    assert_eq!(unescape_and_unquote_cmd("ls"), "ls");
    assert_eq!(unescape_and_unquote_cmd("\"df\" \"-h\""), "df -h");
}

#[test]
fn test_compare_major_minor_versions() {
    assert!(compare_major_minor_versions("2.6.0", "2.6.1"));
    assert!(compare_major_minor_versions("2.6", "2.6.0"));
    assert!(!compare_major_minor_versions("2.5.0", "2.6.0"));
    assert!(!compare_major_minor_versions("3.6.0", "2.6.0"));
    assert!(!compare_major_minor_versions("26", "2.6.0"));
    assert!(!compare_major_minor_versions("", "2.6.0"));
}

#[test]
fn test_base64_decode_roundtrip() {
    // A wrapper that handed its argument back unchanged would fail here.
    assert_eq!(base64_decode("aGVsbG8="), b"hello".to_vec());
    assert_eq!(base64_decode_string("Mi41LjA="), "2.5.0");
    // Not base64: the raw text is kept.
    assert_eq!(base64_decode_string("not base64!"), "not base64!");
    assert_eq!(base64_decode(""), Vec::<u8>::new());
    // decoding inverts encoding, including for non-UTF-8 bytes
    assert_eq!(base64_encode(b"hello"), "aGVsbG8=");
    assert_eq!(base64_decode(&base64_encode(b"a\nb:c;\xff\x00")), b"a\nb:c;\xff\x00".to_vec());
    assert_eq!(base64_decode_string(&base64_encode("caf\u{e9}".as_bytes())), "caf\u{e9}");
}

#[test]
fn test_redact_passwords_from_entry() {
    let mut entry = sample_capture();
    let passwords = vec!["hunter2".to_string()];
    let hit = redact_passwords_from_entry(&mut entry, &passwords);
    assert!(hit);
    assert_eq!(entry.cmd, "echo [REDACTED]");
    assert_eq!(entry.captured_output, b"password is [REDACTED]\n".to_vec());
    // A second pass finds nothing.
    let mut again = entry.clone();
    assert!(!redact_passwords_from_entry(&mut again, &passwords));
    assert_eq!(again.cmd, entry.cmd);
}

#[test]
fn test_redact_covers_every_text_field() {
    let mut entry = sample_capture();
    entry.message = "the key is hunter2".to_string();
    entry.host = "hunter2-box".to_string();
    entry.cwd = "/home/hunter2".to_string();
    entry.filename = "/tmp/hunter2.txt".to_string();
    entry.remote_user = "hunter2".to_string();
    let passwords = vec!["hunter2".to_string()];
    assert!(redact_passwords_from_entry(&mut entry, &passwords));
    assert_eq!(entry.message, "the key is [REDACTED]");
    assert_eq!(entry.host, "[REDACTED]-box");
    assert_eq!(entry.cwd, "/home/[REDACTED]");
    assert_eq!(entry.filename, "/tmp/[REDACTED].txt");
    assert_eq!(entry.remote_user, "[REDACTED]");
    // the key and the numeric fields survive untouched
    assert_eq!(entry.uuid, sample_capture().uuid);
    assert_eq!(entry.exit_code, sample_capture().exit_code);
}
