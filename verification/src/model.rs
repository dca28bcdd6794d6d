//! The data model: capture records, tasks, query filters, and the plain
//! request bodies of the annotation endpoints.  Instants are UTC
//! milliseconds since the Unix epoch; identifiers are plain strings.
use vstd::prelude::*;

verus! {

/// Whether a capture records a command run or a file edit.
#[derive(Clone, Copy, PartialEq, Eq, Structural, Debug)]
pub enum CaptureType {
    Run,
    Edit,
}

/// The mathematical value of a capture record.
pub struct CaptureModel {
    pub capture_type: CaptureType,
    pub uuid: Seq<char>,
    pub host: Seq<char>,
    pub cwd: Seq<char>,
    pub cmd: Seq<char>,
    pub start_time_ms: int,
    pub duration_ms: int,
    pub message: Seq<char>,
    pub is_noop: bool,
    pub exit_code: int,
    pub local_user: Seq<char>,
    pub remote_user: Seq<char>,
    pub filename: Seq<char>,
    pub terminal_rows: int,
    pub terminal_cols: int,
    pub task_id: Option<int>,
    pub captured_output: Seq<u8>,
    pub original_content: Seq<u8>,
    pub edited_content: Seq<u8>,
}

/// One observed command run or file edit.
pub struct CaptureV2_4 {
    pub capture_type: CaptureType,
    pub uuid: String,
    pub host: String,
    pub cwd: String,
    pub cmd: String,
    pub start_time_ms: i64,
    pub duration_ms: u64,
    pub message: String,
    pub is_noop: bool,
    pub exit_code: i32,
    pub local_user: String,
    pub remote_user: String,
    pub filename: String,
    pub terminal_rows: u16,
    pub terminal_cols: u16,
    pub task_id: Option<i64>,
    pub captured_output: Vec<u8>,
    pub original_content: Vec<u8>,
    pub edited_content: Vec<u8>,
}

pub open spec fn task_id_view(t: Option<i64>) -> Option<int> {
    match t {
        Some(id) => Some(id as int),
        None => None,
    }
}

impl View for CaptureV2_4 {
    type V = CaptureModel;

    open spec fn view(&self) -> CaptureModel {
        CaptureModel {
            capture_type: self.capture_type,
            uuid: self.uuid@,
            host: self.host@,
            cwd: self.cwd@,
            cmd: self.cmd@,
            start_time_ms: self.start_time_ms as int,
            duration_ms: self.duration_ms as int,
            message: self.message@,
            is_noop: self.is_noop,
            exit_code: self.exit_code as int,
            local_user: self.local_user@,
            remote_user: self.remote_user@,
            filename: self.filename@,
            terminal_rows: self.terminal_rows as int,
            terminal_cols: self.terminal_cols as int,
            task_id: task_id_view(self.task_id),
            captured_output: self.captured_output@,
            original_content: self.original_content@,
            edited_content: self.edited_content@,
        }
    }
}

impl Clone for CaptureV2_4 {
    fn clone(&self) -> (r: Self)
        ensures
            r@ == self@,
    {
        CaptureV2_4 {
            capture_type: self.capture_type,
            uuid: self.uuid.clone(),
            host: self.host.clone(),
            cwd: self.cwd.clone(),
            cmd: self.cmd.clone(),
            start_time_ms: self.start_time_ms,
            duration_ms: self.duration_ms,
            message: self.message.clone(),
            is_noop: self.is_noop,
            exit_code: self.exit_code,
            local_user: self.local_user.clone(),
            remote_user: self.remote_user.clone(),
            filename: self.filename.clone(),
            terminal_rows: self.terminal_rows,
            terminal_cols: self.terminal_cols,
            task_id: self.task_id,
            captured_output: self.captured_output.clone(),
            original_content: self.original_content.clone(),
            edited_content: self.edited_content.clone(),
        }
    }
}

/// The projection of a capture without its content blobs, for listings.
pub struct CaptureV2_4Summary {
    pub capture_type: CaptureType,
    pub uuid: String,
    pub host: String,
    pub cwd: String,
    pub cmd: String,
    pub start_time_ms: i64,
    pub duration_ms: u64,
    pub message: String,
    pub is_noop: bool,
    pub exit_code: i32,
    pub local_user: String,
    pub remote_user: String,
    pub filename: String,
    pub terminal_rows: u16,
    pub terminal_cols: u16,
    pub task_id: Option<i64>,
}

impl CaptureV2_4 {
    /// The summary projection: every light field unchanged, blobs dropped.
    pub fn summary(&self) -> (r: CaptureV2_4Summary)
        ensures
            r.capture_type == self.capture_type,
            r.uuid@ == self.uuid@,
            r.host@ == self.host@,
            r.cwd@ == self.cwd@,
            r.cmd@ == self.cmd@,
            r.start_time_ms == self.start_time_ms,
            r.duration_ms == self.duration_ms,
            r.message@ == self.message@,
            r.is_noop == self.is_noop,
            r.exit_code == self.exit_code,
            r.local_user@ == self.local_user@,
            r.remote_user@ == self.remote_user@,
            r.filename@ == self.filename@,
            r.terminal_rows == self.terminal_rows,
            r.terminal_cols == self.terminal_cols,
            r.task_id == self.task_id,
    {
        CaptureV2_4Summary {
            capture_type: self.capture_type,
            uuid: self.uuid.clone(),
            host: self.host.clone(),
            cwd: self.cwd.clone(),
            cmd: self.cmd.clone(),
            start_time_ms: self.start_time_ms,
            duration_ms: self.duration_ms,
            message: self.message.clone(),
            is_noop: self.is_noop,
            exit_code: self.exit_code,
            local_user: self.local_user.clone(),
            remote_user: self.remote_user.clone(),
            filename: self.filename.clone(),
            terminal_rows: self.terminal_rows,
            terminal_cols: self.terminal_cols,
            task_id: self.task_id,
        }
    }
}

/// The mathematical value of a task.
pub struct TaskModel {
    pub id: int,
    pub name: Seq<char>,
    pub created_at_ms: int,
}

/// A user-named grouping of captures.
pub struct Task {
    pub id: i64,
    pub name: String,
    pub created_at_ms: i64,
}

impl View for Task {
    type V = TaskModel;

    open spec fn view(&self) -> TaskModel {
        TaskModel { id: self.id as int, name: self.name@, created_at_ms: self.created_at_ms as int }
    }
}

impl Clone for Task {
    fn clone(&self) -> (r: Self)
        ensures
            r@ == self@,
    {
        Task { id: self.id, name: self.name.clone(), created_at_ms: self.created_at_ms }
    }
}

/// The mathematical value of a query filter.
pub struct FiltersModel {
    pub date_from: Option<Seq<char>>,
    pub date_to: Option<Seq<char>>,
    pub host: Option<Seq<char>>,
    pub search: Option<Seq<char>>,
    pub search_content: Option<Seq<char>>,
    pub show_noop: Option<bool>,
}

pub open spec fn opt_string_view(s: Option<String>) -> Option<Seq<char>> {
    match s {
        Some(x) => Some(x@),
        None => None,
    }
}

/// The predicates a capture listing is narrowed by; all given parts must
/// hold at once.
pub struct Filters {
    pub date_from: Option<String>,
    pub date_to: Option<String>,
    pub host: Option<String>,
    pub search: Option<String>,
    pub search_content: Option<String>,
    pub show_noop: Option<bool>,
}

impl View for Filters {
    type V = FiltersModel;

    open spec fn view(&self) -> FiltersModel {
        FiltersModel {
            date_from: opt_string_view(self.date_from),
            date_to: opt_string_view(self.date_to),
            host: opt_string_view(self.host),
            search: opt_string_view(self.search),
            search_content: opt_string_view(self.search_content),
            show_noop: self.show_noop,
        }
    }
}

impl Default for Filters {
    /// The empty filter: no predicate given, so no-op rows stay hidden.
    fn default() -> (r: Self)
        ensures
            r.date_from is None,
            r.date_to is None,
            r.host is None,
            r.search is None,
            r.search_content is None,
            r.show_noop is None,
    {
        Filters {
            date_from: None,
            date_to: None,
            host: None,
            search: None,
            search_content: None,
            show_noop: None,
        }
    }
}

/// Body of the annotation update endpoint.
pub struct EntryPostData {
    pub uuid: String,
    pub message: String,
    pub is_noop: bool,
}

/// Body of the single-entry redaction endpoint.
pub struct EntryRedactData {
    pub uuid: String,
    pub password: String,
}

/// Body of the bulk redaction endpoint.
pub struct BulkRedactData {
    pub passwords: Vec<String>,
}

/// Body of the task creation endpoint.
pub struct TaskCreateData {
    pub name: String,
    pub entry_uuids: Vec<String>,
}

/// Body of the task update endpoint.
pub struct TaskUpdateData {
    pub task_id: i64,
    pub name: Option<String>,
    pub entry_uuids: Option<Vec<String>>,
}

/// Body of the active-task endpoint.
pub struct ActiveTaskData {
    pub task_id: Option<i64>,
}

/// Body of the legacy save endpoint.
pub struct SaveRequest {
    pub uuid: String,
    pub message: String,
    pub is_noop: bool,
}

/// One row of the legacy file-based log index.
pub struct LogEntry {
    pub start_time: String,
    pub host: String,
    pub command: String,
    pub duration_ms: u64,
    pub log_filename: String,
}

/// Process-wide configuration, read-only after startup.
pub struct CliArgs {
    pub dir: String,
    pub port: u16,
    pub import: Option<String>,
    pub cmd: String,
    pub ui_background: String,
}

impl Default for CliArgs {
    /// The documented defaults: storage under `.local/share/prodlog` in the
    /// user's home, UI port 5000, a bash child, a white UI background.
    fn default() -> (r: Self)
        ensures
            r.dir@ == ".local/share/prodlog"@,
            r.port == 5000,
            r.import is None,
            r.cmd@ == "/bin/bash"@,
            r.ui_background@ == "#FFFFFF"@,
    {
        CliArgs {
            dir: ".local/share/prodlog".to_owned(),
            port: 5000,
            import: None,
            cmd: "/bin/bash".to_owned(),
            ui_background: "#FFFFFF".to_owned(),
        }
    }
}

} // verus!
