//! Handles for the historical file-based sinks.  Only the SQL-backed
//! store is live; these carry the configured location for callers that
//! still import from the older formats.
use vstd::prelude::*;

verus! {

/// A handle on a JSON log file.
pub struct JsonSink {
    pub prodlog_file: String,
}

impl JsonSink {
    /// A handle for the given file path.
    pub fn new(prodlog_file: &str) -> (r: Self)
        ensures
            r.prodlog_file@ == prodlog_file@,
    {
        JsonSink { prodlog_file: prodlog_file.to_owned() }
    }
}

/// A handle on an Obsidian-style markdown log directory.
pub struct ObsidianSink {
    pub prodlog_dir: String,
}

impl ObsidianSink {
    /// A handle for the given directory path.
    pub fn new(prodlog_dir: &str) -> (r: Self)
        ensures
            r.prodlog_dir@ == prodlog_dir@,
    {
        ObsidianSink { prodlog_dir: prodlog_dir.to_owned() }
    }
}

} // verus!
