use base64::Engine;
use prodlog::{CaptureType, DiffTag, Filters, Notice, Session, Store};

const PREFIX: &[u8] = b"\x1A(dd0d3038-1d43-11f0-9761-022486cd4c38) PRODLOG:";

fn b64(data: &[u8]) -> String {
    base64::engine::general_purpose::STANDARD.encode(data)
}

fn command(verb: &str, args: &[&[u8]]) -> Vec<u8> {
    let mut out = PREFIX.to_vec();
    out.extend_from_slice(verb.as_bytes());
    for a in args {
        out.push(b':');
        out.extend_from_slice(b64(a).as_bytes());
    }
    out.push(b';');
    out
}

#[test]
fn test_unknown_verb_passes_through() {
    let mut store = Store::new();
    let mut session = Session::new("2.6.0".to_string());
    let mut chunk = PREFIX.to_vec();
    chunk.extend_from_slice(b"HELLO WORLD;");
    let out = session.process(&mut store, &chunk);
    assert_eq!(out.tty, chunk);
    assert!(out.replies.is_empty());
    assert!(store.get_entries(&Filters::default()).is_empty());
}

#[test]
fn test_run_capture_round_trip() {
    let mut store = Store::new();
    let mut session = Session::new("2.6.0".to_string());
    let mut stream = command(
        "START CAPTURE RUN",
        &[b"web01", b"/srv", b"'ls' '-l'", b"checking", b"root"],
    );
    stream.extend_from_slice(b"hello\n");
    stream.extend(command("STOP CAPTURE RUN", &[b"0"]));
    let out = session.process(&mut store, &stream);
    assert_eq!(out.tty, b"hello\n".to_vec());
    let entries = store.get_entries(&Filters::default());
    assert_eq!(entries.len(), 1);
    let e = &entries[0];
    assert_eq!(e.capture_type, CaptureType::Run);
    assert_eq!(e.host, "web01");
    assert_eq!(e.cwd, "/srv");
    assert_eq!(e.cmd, "ls -l");
    assert_eq!(e.message, "checking");
    assert_eq!(e.remote_user, "root");
    assert_eq!(e.captured_output, b"hello\n".to_vec());
    assert_eq!(e.exit_code, 0);
    // duration_ms is unsigned and clamped at zero, so it is always >= 0
    assert!(e.duration_ms < 60_000);
    assert_eq!(e.uuid.len(), 36);
}

#[test]
fn test_unparseable_exit_code_sentinel() {
    let mut store = Store::new();
    let mut session = Session::new("2.6.0".to_string());
    let mut stream = command("START CAPTURE RUN", &[b"h", b"/", b"x", b"", b""]);
    stream.extend(command("STOP CAPTURE RUN", &[b"not a number"]));
    session.process(&mut store, &stream);
    let entries = store.get_entries(&Filters::default());
    assert_eq!(entries.len(), 1);
    assert_eq!(entries[0].exit_code, 1000);
}

#[test]
fn test_edit_capture_and_diff() {
    let mut store = Store::new();
    let mut session = Session::new("2.6.0".to_string());
    let mut stream = command(
        "START CAPTURE EDIT",
        &[b"web01", b"/etc", b"vi hosts", b"", b"", b"/etc/hosts", b"a\nb\n"],
    );
    stream.extend(command("STOP CAPTURE EDIT", &[b"0", b"a\nc\n"]));
    session.process(&mut store, &stream);
    let entries = store.get_entries(&Filters::default());
    assert_eq!(entries.len(), 1);
    let e = &entries[0];
    assert_eq!(e.capture_type, CaptureType::Edit);
    assert_eq!(e.filename, "/etc/hosts");
    assert_eq!(e.original_content, b"a\nb\n".to_vec());
    assert_eq!(e.edited_content, b"a\nc\n".to_vec());
    assert_eq!(e.captured_output, Vec::<u8>::new());
    assert_eq!(e.exit_code, 0);
    let diff = prodlog::entry_content_diff(e);
    assert_eq!(diff.len(), 3);
    assert_eq!(diff[0].tag, DiffTag::Equal);
    assert_eq!(diff[0].text, "a\n");
    assert_eq!(diff[1].tag, DiffTag::Delete);
    assert_eq!(diff[1].text, "b\n");
    assert_eq!(diff[2].tag, DiffTag::Insert);
    assert_eq!(diff[2].text, "c\n");
}

#[test]
fn test_heartbeat_version_mismatch() {
    let mut store = Store::new();
    let mut session = Session::new("2.6.0".to_string());
    let stream = command("PRODLOG, ARE YOU RUNNING?", &[b"2.5.0"]);
    let out = session.process(&mut store, &stream);
    assert!(out.replies.is_empty());
    // the session stays usable afterwards
    let after = session.process(&mut store, b"still here");
    assert_eq!(after.tty, b"still here".to_vec());
}

#[test]
fn test_heartbeat_version_match_replies() {
    let mut store = Store::new();
    let mut session = Session::new("2.6.0".to_string());
    let stream = command("PRODLOG, ARE YOU RUNNING?", &[b"2.6.3"]);
    let out = session.process(&mut store, &stream);
    assert_eq!(out.replies, vec!["PRODLOG IS RUNNING\n".to_string()]);
}

#[test]
fn test_task_commands_drive_store() {
    let mut store = Store::new();
    let mut session = Session::new("2.6.0".to_string());
    let stream = command("TASK START NEW", &[b"deploy"]);
    session.process(&mut store, &stream);
    let tasks = store.get_all_tasks();
    assert_eq!(tasks.len(), 1);
    assert_eq!(tasks[0].name, "deploy");
    assert_eq!(store.get_active_task(), Some(tasks[0].id));
    session.process(&mut store, &command("TASK UNSET ACTIVE", &[]));
    assert_eq!(store.get_active_task(), None);
    // activating a missing task is refused
    let out = session.process(&mut store, &command("TASK SET ACTIVE", &[b"99"]));
    assert_eq!(store.get_active_task(), None);
    assert!(out.notices.iter().any(|n| matches!(n, Notice::TaskMissing { task_id: 99 })));
}

#[test]
fn test_missing_arguments_drop_event() {
    let mut store = Store::new();
    let mut session = Session::new("2.6.0".to_string());
    // START CAPTURE RUN with too few arguments: warned about and dropped
    let stream = command("START CAPTURE RUN", &[b"only-host"]);
    let out = session.process(&mut store, &stream);
    assert_eq!(out.tty, Vec::<u8>::new());
    assert!(out.notices.iter().any(|n| matches!(n, Notice::MissingArguments)));
    // a stop with no prior start stores nothing
    session.process(&mut store, &command("STOP CAPTURE RUN", &[b"0"]));
    assert!(store.get_entries(&Filters::default()).is_empty());
}

#[test]
fn test_command_split_across_chunks_resumes() {
    let mut store = Store::new();
    let mut session = Session::new("2.6.0".to_string());
    let mut stream = command("START CAPTURE RUN", &[b"h", b"/", b"make", b"", b""]);
    stream.extend_from_slice(b"building...\n");
    stream.extend(command("STOP CAPTURE RUN", &[b"2"]));
    // feed the same stream one byte at a time
    let mut tty = Vec::new();
    for b in &stream {
        let out = session.process(&mut store, &[*b]);
        tty.extend_from_slice(&out.tty);
    }
    assert_eq!(tty, b"building...\n".to_vec());
    let entries = store.get_entries(&Filters::default());
    assert_eq!(entries.len(), 1);
    assert_eq!(entries[0].exit_code, 2);
    assert_eq!(entries[0].captured_output, b"building...\n".to_vec());
}

#[test]
fn test_negative_exit_code_parses() {
    let mut store = Store::new();
    let mut session = Session::new("2.6.0".to_string());
    let mut stream = command("START CAPTURE RUN", &[b"h", b"/", b"x", b"", b""]);
    stream.extend(command("STOP CAPTURE RUN", &[b"-1"]));
    session.process(&mut store, &stream);
    let entries = store.get_entries(&Filters::default());
    assert_eq!(entries[0].exit_code, -1);
}

#[test]
fn test_status_check_names_active_task() {
    let mut store = Store::new();
    let mut session = Session::new("2.6.0".to_string());
    session.process(&mut store, &command("TASK START NEW", &[b"audit"]));
    let out = session.process(&mut store, &command("IS CURRENTLY INACTIVE", &[]));
    assert!(out.notices.iter().any(|n| match n {
        Notice::StatusActive { active_task } => active_task.as_deref() == Some("audit"),
        _ => false,
    }));
}

#[test]
fn test_edit_start_without_filename_dropped() {
    let mut store = Store::new();
    let mut session = Session::new("2.6.0".to_string());
    let mut stream = command(
        "START CAPTURE EDIT",
        &[b"web01", b"/etc", b"vi", b"", b"", b"", b"contents"],
    );
    stream.extend(command("STOP CAPTURE EDIT", &[b"0", b"contents"]));
    let out = session.process(&mut store, &stream);
    assert!(out.notices.iter().any(|n| matches!(n, Notice::MissingArguments)));
    assert!(store.get_entries(&Filters::default()).is_empty());
}
