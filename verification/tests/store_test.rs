use prodlog::{CaptureType, CaptureV2_4, Filters, Store, StoreError};

fn capture(uuid: &str, start_ms: i64, host: &str, cmd: &str) -> CaptureV2_4 {
    CaptureV2_4 {
        capture_type: CaptureType::Run,
        uuid: uuid.to_string(),
        host: host.to_string(),
        cwd: "/".to_string(),
        cmd: cmd.to_string(),
        start_time_ms: start_ms,
        duration_ms: 5,
        message: "".to_string(),
        is_noop: false,
        exit_code: 0,
        local_user: "me".to_string(),
        remote_user: "".to_string(),
        filename: "".to_string(),
        terminal_rows: 24,
        terminal_cols: 80,
        task_id: None,
        captured_output: Vec::new(),
        original_content: Vec::new(),
        edited_content: Vec::new(),
    }
}

fn filters() -> Filters {
    Filters::default()
}

// 2024-05-15 12:00:00 UTC in milliseconds since the epoch
const MAY_15: i64 = 1_715_774_400_000;
// 2024-05-20 12:00:00 UTC
const MAY_20: i64 = 1_716_206_400_000;
// 2024-06-01 12:00:00 UTC
const JUN_01: i64 = 1_717_243_200_000;

#[test]
fn test_add_entry_idempotent_on_uuid() {
    let mut store = Store::new();
    let u = "aaaaaaaa-0000-0000-0000-000000000001";
    store.add_entry(capture(u, MAY_15, "h1", "first"));
    store.add_entry(capture(u, MAY_15, "h1", "second"));
    let rows = store.get_entries(&filters());
    assert_eq!(rows.len(), 1);
    assert_eq!(rows[0].cmd, "second");
    assert_eq!(store.get_entry_by_id(u).unwrap().cmd, "second");
}

#[test]
fn test_date_range_filter_subset() {
    let mut store = Store::new();
    store.add_entry(capture("u-1", MAY_15, "h", "a"));
    store.add_entry(capture("u-2", MAY_20, "h", "b"));
    store.add_entry(capture("u-3", JUN_01, "h", "c"));
    let all = store.get_entries(&filters());
    assert_eq!(all.len(), 3);
    let mut f = filters();
    f.date_from = Some("2024-05-14".to_string());
    f.date_to = Some("2024-05-21".to_string());
    let ranged = store.get_entries(&f);
    assert_eq!(ranged.len(), 2);
    for row in &ranged {
        assert!(all.iter().any(|e| e.uuid == row.uuid));
        assert!(row.start_time_ms >= MAY_15 - 86_400_000);
        assert!(row.start_time_ms <= MAY_20 + 86_400_000);
    }
    // inclusive day boundaries
    let mut exact = filters();
    exact.date_from = Some("2024-05-15".to_string());
    exact.date_to = Some("2024-05-15".to_string());
    assert_eq!(store.get_entries(&exact).len(), 1);
    // a malformed date admits nothing
    let mut bad = filters();
    bad.date_from = Some("yesterday".to_string());
    assert!(store.get_entries(&bad).is_empty());
}

#[test]
fn test_entries_sorted_newest_first() {
    let mut store = Store::new();
    store.add_entry(capture("u-1", MAY_15, "h", "a"));
    store.add_entry(capture("u-3", JUN_01, "h", "c"));
    store.add_entry(capture("u-2", MAY_20, "h", "b"));
    let rows = store.get_entries(&filters());
    let cmds: Vec<&str> = rows.iter().map(|e| e.cmd.as_str()).collect();
    assert_eq!(cmds, vec!["c", "b", "a"]);
}

#[test]
fn test_host_and_search_filters() {
    let mut store = Store::new();
    store.add_entry(capture("u-1", MAY_15, "Web01", "apt upgrade"));
    store.add_entry(capture("u-2", MAY_20, "db02", "pg_dump nightly"));
    let mut by_host = filters();
    by_host.host = Some("web".to_string());
    let rows = store.get_entries(&by_host);
    assert_eq!(rows.len(), 1);
    assert_eq!(rows[0].host, "Web01");
    let mut by_search = filters();
    by_search.search = Some("DUMP".to_string());
    assert_eq!(store.get_entries(&by_search).len(), 1);
    let mut by_content = filters();
    by_content.search_content = Some("nightly".to_string());
    assert_eq!(store.get_entries(&by_content).len(), 1);
}

#[test]
fn test_noop_rows_hidden_by_default() {
    let mut store = Store::new();
    let mut quiet = capture("u-1", MAY_15, "h", "true");
    quiet.is_noop = true;
    store.add_entry(quiet);
    store.add_entry(capture("u-2", MAY_20, "h", "real"));
    assert_eq!(store.get_entries(&filters()).len(), 1);
    let mut show = filters();
    show.show_noop = Some(true);
    assert_eq!(store.get_entries(&show).len(), 2);
}

#[test]
fn test_active_task_stamps_inserts() {
    let mut store = Store::new();
    let id = store.create_task("rollout", MAY_15);
    store.set_active_task(Some(id));
    store.add_entry(capture("u-1", MAY_15, "h", "a"));
    store.add_entry(capture("u-2", MAY_20, "h", "b"));
    store.set_active_task(None);
    store.add_entry(capture("u-3", JUN_01, "h", "c"));
    assert_eq!(store.get_entry_by_id("u-1").unwrap().task_id, Some(id));
    assert_eq!(store.get_entry_by_id("u-2").unwrap().task_id, Some(id));
    assert_eq!(store.get_entry_by_id("u-3").unwrap().task_id, None);
}

#[test]
fn test_task_listing_and_rename() {
    let mut store = Store::new();
    let a = store.create_task("first", MAY_15);
    let b = store.create_task("second", MAY_20);
    assert!(a < b);
    let tasks = store.get_all_tasks();
    assert_eq!(tasks.len(), 2);
    // newest identifier first
    assert_eq!(tasks[0].name, "second");
    assert_eq!(tasks[1].name, "first");
    store.update_task_name(a, "renamed");
    assert_eq!(store.get_task_by_id(a).unwrap().name, "renamed");
    assert!(store.get_task_by_id(999).is_none());
}

#[test]
fn test_assign_entries_to_task() {
    let mut store = Store::new();
    let id = store.create_task("grouping", MAY_15);
    store.add_entry(capture("u-1", MAY_15, "h", "a"));
    store.add_entry(capture("u-2", MAY_20, "h", "b"));
    store.assign_entries_to_task(&["u-1".to_string()], Some(id));
    assert_eq!(store.get_entry_by_id("u-1").unwrap().task_id, Some(id));
    assert_eq!(store.get_entry_by_id("u-2").unwrap().task_id, None);
    store.assign_entries_to_task(&["u-1".to_string()], None);
    assert_eq!(store.get_entry_by_id("u-1").unwrap().task_id, None);
}

#[test]
fn test_migration_fresh_store() {
    let mut store = Store::new();
    assert_eq!(store.migrate("2.6.0"), Ok(()));
    let (version, dirty) = store.get_schema_version().unwrap();
    assert!(!dirty);
    assert!(prodlog::compare_major_minor_versions(&version, "2.6.0"));
}

#[test]
fn test_migration_steps_old_schema_forward() {
    let mut store = Store::new();
    store.restore_schema_row("2.2.0", false, 0);
    assert_eq!(store.migrate("2.6.0"), Ok(()));
    let (version, dirty) = store.get_schema_version().unwrap();
    assert!(!dirty);
    assert!(prodlog::compare_major_minor_versions(&version, "2.6.0"));
    // each applied step is first recorded dirty, then clean
    let rows = store.get_schema_rows();
    assert_eq!(rows.len(), 9);
    assert_eq!(rows[1].version, "2.2.0");
    assert!(rows[1].dirty);
    assert_eq!(rows[2].version, "2.3.0");
    assert!(!rows[2].dirty);
    assert_eq!(rows[8].version, "2.6");
    assert!(!rows[8].dirty);
}

#[test]
fn test_migration_refuses_dirty_schema() {
    let mut store = Store::new();
    store.restore_schema_row("2.5", true, 0);
    assert_eq!(store.migrate("2.6.0"), Err(StoreError::DirtySchema));
}

#[test]
fn test_migration_refuses_unknown_version() {
    let mut store = Store::new();
    store.restore_schema_row("1.0.0", false, 0);
    assert_eq!(store.migrate("2.6.0"), Err(StoreError::UnsupportedVersion));
}

#[test]
fn test_bulk_redact_counts_entries() {
    let mut store = Store::new();
    let mut with_secret = capture("u-1", MAY_15, "h", "mysql -p hunter2");
    with_secret.captured_output = b"ok\n".to_vec();
    store.add_entry(with_secret);
    store.add_entry(capture("u-2", MAY_20, "h", "ls"));
    let (redacted, total) = store.bulk_redact(&["hunter2".to_string()]);
    assert_eq!((redacted, total), (1, 2));
    assert_eq!(store.get_entry_by_id("u-1").unwrap().cmd, "mysql -p [REDACTED]");
    assert_eq!(store.get_entry_by_id("u-2").unwrap().cmd, "ls");
}

#[test]
fn test_restore_keeps_task_pointer() {
    let mut store = Store::new();
    let id = store.create_task("old", MAY_15);
    store.set_active_task(None);
    let mut row = capture("u-1", MAY_15, "h", "a");
    row.task_id = Some(id);
    store.restore_entry(row);
    // restore keeps the persisted pointer even though nothing is active
    assert_eq!(store.get_entry_by_id("u-1").unwrap().task_id, Some(id));
}

#[test]
fn test_migration_is_idempotent_when_current() {
    let mut store = Store::new();
    store.restore_schema_row("2.2.0", false, 0);
    assert_eq!(store.migrate("2.6.0"), Ok(()));
    let rows_after_first = store.get_schema_rows().len();
    assert_eq!(store.migrate("2.6.0"), Ok(()));
    assert_eq!(store.get_schema_rows().len(), rows_after_first);
}

#[test]
fn test_bulk_redact_reaches_message_field() {
    let mut store = Store::new();
    let mut noted = capture("u-1", MAY_15, "h", "ls");
    noted.message = "password hunter2 used here".to_string();
    store.add_entry(noted);
    let (redacted, total) = store.bulk_redact(&["hunter2".to_string()]);
    assert_eq!((redacted, total), (1, 1));
    assert_eq!(
        store.get_entry_by_id("u-1").unwrap().message,
        "password [REDACTED] used here"
    );
}
