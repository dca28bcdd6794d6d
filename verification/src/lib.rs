//! A session-recording shell wrapper library: an in-band protocol scanner
//! over a child shell's output stream, a capture controller driving a
//! versioned store of command runs and file edits, and the query,
//! annotation and redaction operations the browsing surface is built on.
use vstd::prelude::*;

mod controller;
mod helpers;
mod model;
mod protocol;
mod scanner;
mod session;
mod sinks;
mod store;
mod trusted;

pub use controller::{CaptureController, ControllerOutput, Notice, Stamp};
pub use helpers::{
    base64_decode, base64_decode_string, base64_encode, compare_major_minor_versions,
    entry_content_diff,
    redact_passwords_from_entry, unescape_and_unquote_cmd,
};
pub use model::{
    ActiveTaskData, BulkRedactData, CaptureType, CaptureV2_4, CaptureV2_4Summary, CliArgs,
    EntryPostData, EntryRedactData, Filters, LogEntry, SaveRequest, Task, TaskCreateData,
    TaskUpdateData,
};
pub use protocol::{parse_command, parse_i64, ParsedCommand, ProtocolEvent};
pub use scanner::{ProtocolScanner, ScanItem, ScanState};
pub use session::{Session, SessionOutput};
pub use sinks::{JsonSink, ObsidianSink};
pub use store::{MigrationRow, Store, StoreError};
pub use trusted::{DiffChange, DiffTag};

verus! {

} // verus!
