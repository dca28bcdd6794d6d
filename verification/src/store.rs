//! The capture store: captures, tasks, the active-task pointer, and the
//! schema-migration log, with filtered queries.
//!
//! The store's behaviour is pinned against [`StoreModel`]: inserting is an
//! idempotent replace keyed on uuid that stamps the active task, queries
//! return exactly the rows the filter admits in start-time-descending
//! order, and migration leaves a clean log at the current version.
use vstd::prelude::*;
use vstd::pervasive::VecAdditionalExecFns;
use vstd::string::*;
use vstd::utf8::encode_utf8;
use vstd::multiset::Multiset;

use crate::helpers;
use crate::helpers::{
    blob_hit, contains_sub, pw_views, redact_blob, redact_text, same_major_minor, text_hit,
};
use crate::model::{
    task_id_view, CaptureModel, CaptureV2_4, Filters, FiltersModel, Task, TaskModel,
};
use crate::trusted;

verus! {

/// One row of the schema-migration log.
pub struct MigrationRow {
    pub version: String,
    pub dirty: bool,
    pub applied_at_ms: i64,
}

/// The mathematical value of a migration-log row.
pub struct MigrationModel {
    pub version: Seq<char>,
    pub dirty: bool,
    pub applied_at_ms: int,
}

impl View for MigrationRow {
    type V = MigrationModel;

    open spec fn view(&self) -> MigrationModel {
        MigrationModel {
            version: self.version@,
            dirty: self.dirty,
            applied_at_ms: self.applied_at_ms as int,
        }
    }
}

/// Why the store refuses to start.
#[derive(Clone, Copy, PartialEq, Eq, Structural, Debug)]
pub enum StoreError {
    DirtySchema,
    UnsupportedVersion,
}

/// The mathematical value of the whole store.
pub struct StoreModel {
    pub entries: Seq<CaptureModel>,
    pub tasks: Seq<TaskModel>,
    pub active_task: Option<int>,
    pub next_task_id: int,
    pub schema: Seq<MigrationModel>,
}

pub open spec fn caps_view(es: Seq<CaptureV2_4>) -> Seq<CaptureModel> {
    es.map_values(|c: CaptureV2_4| c@)
}

pub open spec fn tasks_view(ts: Seq<Task>) -> Seq<TaskModel> {
    ts.map_values(|t: Task| t@)
}

pub open spec fn rows_view(rs: Seq<MigrationRow>) -> Seq<MigrationModel> {
    rs.map_values(|r: MigrationRow| r@)
}

/// A capture with its task pointer replaced.
pub open spec fn stamp_task(c: CaptureModel, t: Option<int>) -> CaptureModel {
    CaptureModel { task_id: t, ..c }
}

/// The entries with every row of the given uuid removed.
pub open spec fn without_uuid(es: Seq<CaptureModel>, u: Seq<char>) -> Seq<CaptureModel>
    decreases es.len(),
{
    if es.len() == 0 {
        Seq::empty()
    } else {
        (if es[0].uuid == u {
            Seq::empty()
        } else {
            seq![es[0]]
        }) + without_uuid(es.drop_first(), u)
    }
}

/// How many rows carry the given uuid.
pub open spec fn count_uuid(es: Seq<CaptureModel>, u: Seq<char>) -> int
    decreases es.len(),
{
    if es.len() == 0 {
        0int
    } else {
        (if es[0].uuid == u {
            1int
        } else {
            0int
        }) + count_uuid(es.drop_first(), u)
    }
}

/// What inserting a capture does: every earlier row with its uuid goes,
/// and the capture is appended with the active task stamped in.
pub open spec fn add_entry_spec(m: StoreModel, c: CaptureModel) -> StoreModel {
    StoreModel {
        entries: without_uuid(m.entries, c.uuid).push(stamp_task(c, m.active_task)),
        ..m
    }
}

/// What pointing the active task somewhere does.
pub open spec fn set_active_task_spec(m: StoreModel, t: Option<int>) -> StoreModel {
    StoreModel { active_task: t, ..m }
}

/// No two rows share a uuid.
pub open spec fn unique_uuids(es: Seq<CaptureModel>) -> bool {
    forall|i: int, j: int|
        0 <= i < j < es.len() ==> (#[trigger] es[i]).uuid != (#[trigger] es[j]).uuid
}

/// The ASCII lower-casing of a character.
pub open spec fn lower_char(c: char) -> char {
    if 65 <= c as u32 && c as u32 <= 90 {
        ((c as u8) + 32) as char
    } else {
        c
    }
}

pub open spec fn lower_chars(s: Seq<char>) -> Seq<char> {
    s.map_values(|c: char| lower_char(c))
}

/// The ASCII lower-casing of a byte.
pub open spec fn lower_byte(b: u8) -> u8 {
    if 0x41 <= b <= 0x5a {
        (b + 32) as u8
    } else {
        b
    }
}

pub open spec fn lower_bytes(s: Seq<u8>) -> Seq<u8> {
    s.map_values(|b: u8| lower_byte(b))
}

/// Case-insensitive (ASCII) substring match on text.
pub open spec fn contains_ci(hay: Seq<char>, pat: Seq<char>) -> bool {
    contains_sub(lower_chars(hay), lower_chars(pat))
}

/// Case-insensitive (ASCII) substring match of text inside raw bytes.
pub open spec fn blob_contains_ci(hay: Seq<u8>, pat: Seq<char>) -> bool {
    contains_sub(lower_bytes(hay), lower_bytes(encode_utf8(pat)))
}

pub open spec fn is_digit_char(c: char) -> bool {
    48 <= c as u32 && c as u32 <= 57
}

pub open spec fn digit_of(c: char) -> int {
    c as u32 - 48
}

/// A filter date `YYYY-MM-DD`, as calendar fields, when well-formed.
pub open spec fn parsed_date(s: Seq<char>) -> Option<(int, int, int)> {
    if s.len() == 10 && s[4] == '-' && s[7] == '-' && is_digit_char(s[0]) && is_digit_char(s[1])
        && is_digit_char(s[2]) && is_digit_char(s[3]) && is_digit_char(s[5]) && is_digit_char(s[6])
        && is_digit_char(s[8]) && is_digit_char(s[9]) {
        let y = digit_of(s[0]) * 1000 + digit_of(s[1]) * 100 + digit_of(s[2]) * 10 + digit_of(
            s[3],
        );
        let m = digit_of(s[5]) * 10 + digit_of(s[6]);
        let d = digit_of(s[8]) * 10 + digit_of(s[9]);
        if 1 <= y && 1 <= m <= 12 && 1 <= d <= 31 {
            Some((y, m, d))
        } else {
            None
        }
    } else {
        None
    }
}

/// Days since the Unix epoch of a calendar date (proleptic Gregorian).
pub open spec fn civil_day(y: int, m: int, d: int) -> int {
    let y2 = if m <= 2 {
        y - 1
    } else {
        y
    };
    let era = y2 / 400;
    let yoe = y2 - era * 400;
    let mp = if m > 2 {
        m - 3
    } else {
        m + 9
    };
    let doy = (153 * mp + 2) / 5 + d - 1;
    let doe = yoe * 365 + yoe / 4 - yoe / 100 + doy;
    era * 146097 + doe - 719468
}

/// The epoch day a filter date names, when it is well-formed.
pub open spec fn date_day(s: Seq<char>) -> Option<int> {
    match parsed_date(s) {
        Some((y, m, d)) => Some(civil_day(y, m, d)),
        None => None,
    }
}

/// The first millisecond of an epoch day.
pub open spec fn day_start_ms(day: int) -> int {
    day * 86400000
}

/// The last millisecond of an epoch day.
pub open spec fn day_end_ms(day: int) -> int {
    day * 86400000 + 86399999
}

/// Whether a capture satisfies every given part of a filter: the inclusive
/// day range (a malformed date admits nothing), case-insensitive substring
/// matches on host, on command-or-message, and on all content, and the
/// hiding of no-op rows unless asked for.
pub open spec fn matches_filters(f: FiltersModel, e: CaptureModel) -> bool {
    &&& (match f.date_from {
        None => true,
        Some(d) => match date_day(d) {
            Some(day) => e.start_time_ms >= day_start_ms(day),
            None => false,
        },
    })
    &&& (match f.date_to {
        None => true,
        Some(d) => match date_day(d) {
            Some(day) => e.start_time_ms <= day_end_ms(day),
            None => false,
        },
    })
    &&& (match f.host {
        None => true,
        Some(h) => contains_ci(e.host, h),
    })
    &&& (match f.search {
        None => true,
        Some(q) => contains_ci(e.cmd, q) || contains_ci(e.message, q),
    })
    &&& (match f.search_content {
        None => true,
        Some(q) => contains_ci(e.cmd, q) || contains_ci(e.message, q) || blob_contains_ci(
            e.captured_output,
            q,
        ) || blob_contains_ci(e.original_content, q) || blob_contains_ci(e.edited_content, q),
    })
    &&& (f.show_noop == Some(true) || !e.is_noop)
}

/// The rows a filter admits, in store order.
pub open spec fn filter_entries(es: Seq<CaptureModel>, f: FiltersModel) -> Seq<CaptureModel>
    decreases es.len(),
{
    if es.len() == 0 {
        Seq::empty()
    } else {
        (if matches_filters(f, es[0]) {
            seq![es[0]]
        } else {
            Seq::empty()
        }) + filter_entries(es.drop_first(), f)
    }
}

/// A filter with nothing given.
pub open spec fn empty_filter() -> FiltersModel {
    FiltersModel {
        date_from: None,
        date_to: None,
        host: None,
        search: None,
        search_content: None,
        show_noop: None,
    }
}

/// A filter that gives only the day range.
pub open spec fn date_filter(from: Option<Seq<char>>, to: Option<Seq<char>>) -> FiltersModel {
    FiltersModel {
        date_from: from,
        date_to: to,
        host: None,
        search: None,
        search_content: None,
        show_noop: None,
    }
}

/// The next schema version after a given one; the table is closed.
pub open spec fn next_version(v: Seq<char>) -> Option<Seq<char>> {
    if v == "2.2.0"@ {
        Some("2.3.0"@)
    } else if v == "2.3.0"@ {
        Some("2.4.0"@)
    } else if v == "2.4.0"@ {
        Some("2.5"@)
    } else if v == "2.5"@ {
        Some("2.6"@)
    } else {
        None
    }
}

/// How many steps remain from a version to the end of the table.
pub open spec fn version_rank(v: Seq<char>) -> int {
    if v == "2.2.0"@ {
        4int
    } else if v == "2.3.0"@ {
        3int
    } else if v == "2.4.0"@ {
        2int
    } else if v == "2.5"@ {
        1int
    } else {
        0int
    }
}

/// Whether stepping through the migration table from `v` reaches a version
/// whose major.minor equals `current`'s.
pub open spec fn reaches(v: Seq<char>, current: Seq<char>) -> bool
    decreases version_rank(v),
{
    if same_major_minor(v, current) {
        true
    } else {
        match next_version(v) {
            Some(v2) => if version_rank(v2) < version_rank(v) {
                reaches(v2, current)
            } else {
                false
            },
            None => false,
        }
    }
}

/// A capture with every text field and every content blob redacted; the
/// uuid (the row's key), the numeric fields and the flags are kept.
pub open spec fn redact_capture(e: CaptureModel, ps: Seq<Seq<char>>) -> CaptureModel {
    CaptureModel {
        host: redact_text(e.host, ps),
        cwd: redact_text(e.cwd, ps),
        cmd: redact_text(e.cmd, ps),
        message: redact_text(e.message, ps),
        filename: redact_text(e.filename, ps),
        local_user: redact_text(e.local_user, ps),
        remote_user: redact_text(e.remote_user, ps),
        captured_output: redact_blob(e.captured_output, ps),
        original_content: redact_blob(e.original_content, ps),
        edited_content: redact_blob(e.edited_content, ps),
        ..e
    }
}

/// Whether redaction finds any of the passwords anywhere in a capture.
pub open spec fn capture_hit(e: CaptureModel, ps: Seq<Seq<char>>) -> bool {
    text_hit(e.host, ps) || text_hit(e.cwd, ps) || text_hit(e.cmd, ps) || text_hit(e.message, ps)
        || text_hit(e.filename, ps) || text_hit(e.local_user, ps) || text_hit(e.remote_user, ps)
        || blob_hit(e.captured_output, ps) || blob_hit(e.original_content, ps) || blob_hit(
        e.edited_content,
        ps,
    )
}

/// Every capture redacted.
pub open spec fn redact_entries(es: Seq<CaptureModel>, ps: Seq<Seq<char>>) -> Seq<CaptureModel> {
    es.map_values(|e: CaptureModel| redact_capture(e, ps))
}

/// How many captures redaction changes a field of.
pub open spec fn count_hits(es: Seq<CaptureModel>, ps: Seq<Seq<char>>) -> int
    decreases es.len(),
{
    if es.len() == 0 {
        0int
    } else {
        (if capture_hit(es[0], ps) {
            1int
        } else {
            0int
        }) + count_hits(es.drop_first(), ps)
    }
}

/// The in-memory store.
pub struct Store {
    entries: Vec<CaptureV2_4>,
    tasks: Vec<Task>,
    active_task: Option<i64>,
    next_task_id: i64,
    schema: Vec<MigrationRow>,
}

impl View for Store {
    type V = StoreModel;

    closed spec fn view(&self) -> StoreModel {
        StoreModel {
            entries: caps_view(self.entries@),
            tasks: tasks_view(self.tasks@),
            active_task: task_id_view(self.active_task),
            next_task_id: self.next_task_id as int,
            schema: rows_view(self.schema@),
        }
    }
}

impl Store {
    /// Captures are keyed by uuid; tasks carry strictly ascending
    /// identifiers below the allocator's next one.
    pub closed spec fn wf(&self) -> bool {
        &&& unique_uuids(self@.entries)
        &&& (forall|i: int, j: int|
            0 <= i < j < self@.tasks.len() ==> (#[trigger] self@.tasks[i]).id < (
            #[trigger] self@.tasks[j]).id)
        &&& (forall|i: int|
            0 <= i < self@.tasks.len() ==> #[trigger] self@.tasks[i].id < self@.next_task_id)
        &&& self@.next_task_id >= 1
    }

    /// An empty store: no rows, no tasks, nothing active, no schema log.
    pub fn new() -> (s: Self)
        ensures
            s.wf(),
            s@.entries =~= Seq::<CaptureModel>::empty(),
            s@.tasks =~= Seq::<TaskModel>::empty(),
            s@.active_task is None,
            s@.schema =~= Seq::<MigrationModel>::empty(),
    {
        Store {
            entries: Vec::new(),
            tasks: Vec::new(),
            active_task: None,
            next_task_id: 1,
            schema: Vec::new(),
        }
    }

    /// The task the next insert will be stamped with, if any.
    pub fn get_active_task(&self) -> (r: Option<i64>)
        ensures
            task_id_view(r) == self@.active_task,
    {
        self.active_task
    }

    /// Point the active task somewhere, or nowhere.
    pub fn set_active_task(&mut self, task_id: Option<i64>)
        requires
            old(self).wf(),
        ensures
            final(self).wf(),
            final(self)@ == set_active_task_spec(old(self)@, task_id_view(task_id)),
    {
        self.active_task = task_id;
    }

    /// Insert or replace one capture, keyed on its uuid, stamping the
    /// active task into it.
    pub fn add_entry(&mut self, capture: CaptureV2_4)
        requires
            old(self).wf(),
        ensures
            final(self).wf(),
            final(self)@ == add_entry_spec(old(self)@, capture@),
    {
        let ghost m0 = self@;
        let ghost u = capture@.uuid;
        let mut stamped = capture;
        stamped.task_id = self.active_task;
        let n = self.entries.len();
        let mut kept: Vec<CaptureV2_4> = Vec::new();
        let mut i: usize = 0;
        proof {
            assert(m0.entries.skip(0) =~= m0.entries);
        }
        while i < n
            invariant
                0 <= i <= n,
                n == self.entries@.len(),
                m0 == self@,
                u == capture@.uuid,
                stamped@ == stamp_task(capture@, m0.active_task),
                without_uuid(m0.entries, u) =~= caps_view(kept@) + without_uuid(
                    m0.entries.skip(i as int),
                    u,
                ),
            decreases n - i,
        {
            proof {
                assert(m0.entries.skip(i as int)[0] == m0.entries[i as int]);
                assert(m0.entries[i as int] == self.entries@[i as int]@);
                assert(m0.entries.skip(i as int).drop_first() =~= m0.entries.skip(i + 1));
            }
            if !helpers::str_eq(self.entries[i].uuid.as_str(), stamped.uuid.as_str()) {
                let e = self.entries[i].clone();
                proof {
                    assert(caps_view(kept@.push(e)) =~= caps_view(kept@).push(e@));
                }
                kept.push(e);
            }
            i += 1;
        }
        proof {
            assert(m0.entries.skip(n as int) =~= Seq::<CaptureModel>::empty());
            assert(without_uuid(m0.entries.skip(n as int), u) =~= Seq::<CaptureModel>::empty());
            assert(without_uuid(m0.entries, u) =~= caps_view(kept@));
            assert(caps_view(kept@.push(stamped)) =~= caps_view(kept@).push(stamped@));
            lemma_without_uuid_props(m0.entries, u);
        }
        kept.push(stamped);
        self.entries = kept;
    }

    /// Insert or replace one capture; the same operation as `add_entry`,
    /// kept for callers that update an existing row.
    pub fn update_entry(&mut self, capture: CaptureV2_4)
        requires
            old(self).wf(),
        ensures
            final(self).wf(),
            final(self)@ == add_entry_spec(old(self)@, capture@),
    {
        self.add_entry(capture);
    }

    /// The capture with the given uuid, if one is stored.
    pub fn get_entry_by_id(&self, uuid: &str) -> (r: Option<CaptureV2_4>)
        requires
            self.wf(),
        ensures
            match r {
                Some(e) => self@.entries.contains(e@) && e@.uuid == uuid@,
                None => count_uuid(self@.entries, uuid@) == 0,
            },
    {
        let n = self.entries.len();
        let mut i: usize = 0;
        proof {
            assert(self@.entries.skip(0) =~= self@.entries);
        }
        while i < n
            invariant
                0 <= i <= n,
                n == self.entries@.len(),
                count_uuid(self@.entries, uuid@) == count_uuid(self@.entries.skip(i as int), uuid@),
            decreases n - i,
        {
            proof {
                assert(self@.entries.skip(i as int)[0] == self@.entries[i as int]);
                assert(self@.entries[i as int] == self.entries@[i as int]@);
                assert(self@.entries.skip(i as int).drop_first() =~= self@.entries.skip(i + 1));
            }
            if helpers::str_eq(self.entries[i].uuid.as_str(), uuid) {
                let e = self.entries[i].clone();
                proof {
                    assert(self@.entries.contains(e@));
                }
                return Some(e);
            }
            i += 1;
        }
        proof {
            assert(self@.entries.skip(n as int) =~= Seq::<CaptureModel>::empty());
        }
        None
    }

    /// Create a task with a fresh identifier and the given creation time,
    /// and return the identifier.  (Were the 63-bit identifier space ever
    /// exhausted, no task could be created and the store would be left
    /// unchanged.)
    pub fn create_task(&mut self, name: &str, created_at_ms: i64) -> (r: i64)
        requires
            old(self).wf(),
        ensures
            final(self).wf(),
            r as int == old(self)@.next_task_id,
            old(self)@.next_task_id < i64::MAX ==> {
                &&& final(self)@.tasks =~= old(self)@.tasks.push(
                    TaskModel {
                        id: old(self)@.next_task_id,
                        name: name@,
                        created_at_ms: created_at_ms as int,
                    },
                )
                &&& final(self)@.next_task_id == old(self)@.next_task_id + 1
            },
            old(self)@.next_task_id == i64::MAX ==> final(self)@ == old(self)@,
            final(self)@.entries == old(self)@.entries,
            final(self)@.active_task == old(self)@.active_task,
            final(self)@.schema == old(self)@.schema,
    {
        let id = self.next_task_id;
        if id == i64::MAX {
            return id;
        }
        let t = Task { id, name: name.to_owned(), created_at_ms };
        proof {
            assert(tasks_view(self.tasks@.push(t)) =~= tasks_view(self.tasks@).push(t@));
        }
        self.tasks.push(t);
        self.next_task_id = id + 1;
        proof {
            assert(self@.tasks =~= old(self)@.tasks.push(t@));
            assert forall|a: int, b: int|
                0 <= a < b < self@.tasks.len() implies (#[trigger] self@.tasks[a]).id < (
            #[trigger] self@.tasks[b]).id by {
                if b < old(self)@.tasks.len() {
                    assert(self@.tasks[a] == old(self)@.tasks[a]);
                    assert(self@.tasks[b] == old(self)@.tasks[b]);
                } else {
                    assert(self@.tasks[b] == t@);
                    assert(self@.tasks[a] == old(self)@.tasks[a]);
                    assert(old(self)@.tasks[a].id < old(self)@.next_task_id);
                }
            }
            assert forall|a: int|
                0 <= a < self@.tasks.len() implies (#[trigger] self@.tasks[a]).id
                < self@.next_task_id by {
                if a < old(self)@.tasks.len() {
                    assert(self@.tasks[a] == old(self)@.tasks[a]);
                    assert(old(self)@.tasks[a].id < old(self)@.next_task_id);
                } else {
                    assert(self@.tasks[a] == t@);
                }
            }
        }
        id
    }

    /// The task with the given identifier, if any.
    pub fn get_task_by_id(&self, id: i64) -> (r: Option<Task>)
        requires
            self.wf(),
        ensures
            match r {
                Some(t) => self@.tasks.contains(t@) && t@.id == id as int,
                None => forall|i: int|
                    0 <= i < self@.tasks.len() ==> (#[trigger] self@.tasks[i]).id != id as int,
            },
    {
        let n = self.tasks.len();
        let mut i: usize = 0;
        while i < n
            invariant
                0 <= i <= n,
                n == self.tasks@.len(),
                forall|j: int| 0 <= j < i ==> (#[trigger] self@.tasks[j]).id != id as int,
            decreases n - i,
        {
            proof {
                assert(self@.tasks[i as int] == self.tasks@[i as int]@);
            }
            if self.tasks[i].id == id {
                let t = self.tasks[i].clone();
                proof {
                    assert(self@.tasks.contains(t@));
                }
                return Some(t);
            }
            i += 1;
        }
        None
    }

    /// All tasks, newest identifier first.
    pub fn get_all_tasks(&self) -> (r: Vec<Task>)
        requires
            self.wf(),
        ensures
            r@.len() == self@.tasks.len(),
            forall|i: int|
                0 <= i < r@.len() ==> (#[trigger] r@[i])@ == self@.tasks[self@.tasks.len() - 1 - i],
            forall|i: int, j: int|
                0 <= i < j < r@.len() ==> (#[trigger] r@[i])@.id > (#[trigger] r@[j])@.id,
    {
        let n = self.tasks.len();
        let mut out: Vec<Task> = Vec::new();
        let mut i: usize = 0;
        while i < n
            invariant
                0 <= i <= n,
                n == self.tasks@.len(),
                out@.len() == i,
                self.wf(),
                forall|k: int|
                    0 <= k < i ==> (#[trigger] out@[k])@ == self@.tasks[self@.tasks.len() - 1 - k],
            decreases n - i,
        {
            let t = self.tasks[n - 1 - i].clone();
            out.push(t);
            i += 1;
        }
        proof {
            assert forall|i: int, j: int| 0 <= i < j < out@.len() implies (#[trigger] out@[i])@.id
                > (#[trigger] out@[j])@.id by {
                assert(out@[i]@ == self@.tasks[self@.tasks.len() - 1 - i]);
                assert(out@[j]@ == self@.tasks[self@.tasks.len() - 1 - j]);
            }
        }
        out
    }

    /// Rename the task with the given identifier, if it is stored.
    pub fn update_task_name(&mut self, task_id: i64, name: &str)
        requires
            old(self).wf(),
        ensures
            final(self).wf(),
            final(self)@.tasks.len() == old(self)@.tasks.len(),
            forall|i: int|
                0 <= i < final(self)@.tasks.len() ==> #[trigger] final(self)@.tasks[i] == (if old(
                    self,
                )@.tasks[i].id == task_id as int {
                    TaskModel { name: name@, ..old(self)@.tasks[i] }
                } else {
                    old(self)@.tasks[i]
                }),
            final(self)@.entries == old(self)@.entries,
            final(self)@.active_task == old(self)@.active_task,
            final(self)@.next_task_id == old(self)@.next_task_id,
            final(self)@.schema == old(self)@.schema,
    {
        let n = self.tasks.len();
        let mut i: usize = 0;
        while i < n
            invariant
                0 <= i <= n,
                n == self.tasks@.len() == old(self)@.tasks.len(),
                self@.entries == old(self)@.entries,
                self@.active_task == old(self)@.active_task,
                self@.next_task_id == old(self)@.next_task_id,
                self@.schema == old(self)@.schema,
                self.next_task_id == old(self).next_task_id,
                forall|j: int|
                    i <= j < n ==> #[trigger] self@.tasks[j] == old(self)@.tasks[j],
                forall|j: int|
                    0 <= j < i ==> #[trigger] self@.tasks[j] == (if old(self)@.tasks[j].id
                        == task_id as int {
                        TaskModel { name: name@, ..old(self)@.tasks[j] }
                    } else {
                        old(self)@.tasks[j]
                    }),
            decreases n - i,
        {
            let ghost pre = self@.tasks;
            proof {
                assert(self@.tasks[i as int] == old(self)@.tasks[i as int]);
            }
            if self.tasks[i].id == task_id {
                let updated = Task {
                    id: self.tasks[i].id,
                    name: name.to_owned(),
                    created_at_ms: self.tasks[i].created_at_ms,
                };
                self.tasks.set(i, updated);
                proof {
                    assert forall|j: int| 0 <= j < n implies #[trigger] self@.tasks[j] == (if j
                        == i as int {
                        TaskModel { name: name@, ..old(self)@.tasks[i as int] }
                    } else {
                        pre[j]
                    }) by {
                        assert(self@.tasks[j] == self.tasks@[j]@);
                    }
                }
            }
            i += 1;
        }
        proof {
            lemma_wf_after_rename(old(self)@, self@, old(self).next_task_id as int);
        }
    }

    /// Re-point the listed captures (those present) at the given task, or
    /// at none.
    pub fn assign_entries_to_task(&mut self, entry_uuids: &[String], task_id: Option<i64>)
        requires
            old(self).wf(),
        ensures
            final(self).wf(),
            final(self)@.entries.len() == old(self)@.entries.len(),
            forall|i: int|
                0 <= i < final(self)@.entries.len() ==> #[trigger] final(self)@.entries[i] == (
                if uuid_listed(old(self)@.entries[i].uuid, pw_views(entry_uuids@)) {
                    stamp_task(old(self)@.entries[i], task_id_view(task_id))
                } else {
                    old(self)@.entries[i]
                }),
            final(self)@.tasks == old(self)@.tasks,
            final(self)@.active_task == old(self)@.active_task,
            final(self)@.next_task_id == old(self)@.next_task_id,
            final(self)@.schema == old(self)@.schema,
    {
        let n = self.entries.len();
        let mut i: usize = 0;
        while i < n
            invariant
                0 <= i <= n,
                n == self.entries@.len() == old(self)@.entries.len(),
                self@.tasks == old(self)@.tasks,
                self@.active_task == old(self)@.active_task,
                self@.next_task_id == old(self)@.next_task_id,
                self@.schema == old(self)@.schema,
                self.next_task_id == old(self).next_task_id,
                forall|j: int|
                    i <= j < n ==> #[trigger] self@.entries[j] == old(self)@.entries[j],
                forall|j: int|
                    0 <= j < i ==> #[trigger] self@.entries[j] == (if uuid_listed(
                        old(self)@.entries[j].uuid,
                        pw_views(entry_uuids@),
                    ) {
                        stamp_task(old(self)@.entries[j], task_id_view(task_id))
                    } else {
                        old(self)@.entries[j]
                    }),
            decreases n - i,
        {
            let ghost pre = self@.entries;
            proof {
                assert(self@.entries[i as int] == old(self)@.entries[i as int]);
            }
            if uuid_in_list(self.entries[i].uuid.as_str(), entry_uuids) {
                let mut e = self.entries[i].clone();
                proof {
                    assert(e@ == old(self)@.entries[i as int]);
                }
                e.task_id = task_id;
                proof {
                    assert(e@ == stamp_task(old(self)@.entries[i as int], task_id_view(task_id)));
                }
                self.entries.set(i, e);
                proof {
                    assert forall|j: int| 0 <= j < n implies #[trigger] self@.entries[j] == (if j
                        == i as int {
                        stamp_task(old(self)@.entries[i as int], task_id_view(task_id))
                    } else {
                        pre[j]
                    }) by {
                        assert(self@.entries[j] == self.entries@[j]@);
                    }
                }
            }
            i += 1;
        }
        proof {
            lemma_wf_after_retask(old(self)@, self@);
        }
    }
}

/// Whether a uuid is one of the listed ones.
pub open spec fn uuid_listed(u: Seq<char>, us: Seq<Seq<char>>) -> bool {
    exists|j: int| 0 <= j < us.len() && us[j] == u
}

fn uuid_in_list(u: &str, us: &[String]) -> (r: bool)
    ensures
        r == uuid_listed(u@, pw_views(us@)),
{
    let n = us.len();
    let mut i: usize = 0;
    while i < n
        invariant
            0 <= i <= n,
            n == us@.len(),
            forall|j: int| 0 <= j < i ==> pw_views(us@)[j] != u@,
        decreases n - i,
    {
        if helpers::str_eq(us[i].as_str(), u) {
            assert(pw_views(us@)[i as int] == u@);
            return true;
        }
        i += 1;
    }
    false
}

/// Every row of `without_uuid(es, u)` comes from `es` and avoids `u`;
/// uniqueness of uuids is kept.
pub proof fn lemma_without_uuid_props(es: Seq<CaptureModel>, u: Seq<char>)
    ensures
        forall|k: int|
            0 <= k < without_uuid(es, u).len() ==> (#[trigger] without_uuid(es, u)[k]).uuid != u
                && es.contains(without_uuid(es, u)[k]),
        unique_uuids(es) ==> unique_uuids(without_uuid(es, u)),
        count_uuid(without_uuid(es, u), u) == 0,
    decreases es.len(),
{
    if es.len() == 0 {
        assert(without_uuid(es, u) =~= Seq::<CaptureModel>::empty());
        assert(count_uuid(without_uuid(es, u), u) == 0);
    } else {
        lemma_without_uuid_props(es.drop_first(), u);
        let w = without_uuid(es, u);
        let wrest = without_uuid(es.drop_first(), u);
        if es[0].uuid == u {
            assert(w =~= wrest);
            assert(count_uuid(w, u) == count_uuid(wrest, u));
        } else {
            assert(w[0] == es[0]);
            assert(w.drop_first() =~= wrest);
            assert(count_uuid(w, u) == count_uuid(wrest, u));
        }
        assert forall|k: int| 0 <= k < w.len() implies (#[trigger] w[k]).uuid != u && es.contains(
            w[k],
        ) by {
            if es[0].uuid == u {
                assert(w[k] == wrest[k]);
                let i = choose|i: int| 0 <= i < es.drop_first().len() && es.drop_first()[i] == w[k];
                assert(es[i + 1] == w[k]);
            } else {
                if k == 0 {
                    assert(w[0] == es[0]);
                } else {
                    assert(w[k] == wrest[k - 1]);
                    let i = choose|i: int|
                        0 <= i < es.drop_first().len() && es.drop_first()[i] == w[k];
                    assert(es[i + 1] == w[k]);
                }
            }
        }
        if unique_uuids(es) {
            assert(unique_uuids(es.drop_first())) by {
                assert forall|i: int, j: int|
                    0 <= i < j < es.drop_first().len() implies (#[trigger] es.drop_first()[i]).uuid
                    != (#[trigger] es.drop_first()[j]).uuid by {
                    assert(es.drop_first()[i] == es[i + 1]);
                    assert(es.drop_first()[j] == es[j + 1]);
                }
            }
            if es[0].uuid != u {
                assert forall|i: int, j: int| 0 <= i < j < w.len() implies (#[trigger] w[i]).uuid
                    != (#[trigger] w[j]).uuid by {
                    if i == 0 {
                        assert(w[j] == wrest[j - 1]);
                        let p = choose|p: int|
                            0 <= p < es.drop_first().len() && es.drop_first()[p] == wrest[j - 1];
                        assert(es[p + 1] == w[j]);
                        assert(es[0].uuid != es[p + 1].uuid);
                    } else {
                        assert(w[i] == wrest[i - 1]);
                        assert(w[j] == wrest[j - 1]);
                    }
                }
            }
        }
    }
}

proof fn lemma_wf_after_rename(m0: StoreModel, m1: StoreModel, next: int)
    requires
        m0.tasks.len() == m1.tasks.len(),
        m0.entries == m1.entries,
        m0.next_task_id == m1.next_task_id,
        forall|i: int| 0 <= i < m1.tasks.len() ==> (#[trigger] m1.tasks[i]).id == m0.tasks[i].id,
        forall|i: int, j: int|
            0 <= i < j < m0.tasks.len() ==> (#[trigger] m0.tasks[i]).id < (
            #[trigger] m0.tasks[j]).id,
        forall|i: int| 0 <= i < m0.tasks.len() ==> #[trigger] m0.tasks[i].id < m0.next_task_id,
        unique_uuids(m0.entries),
    ensures
        unique_uuids(m1.entries),
        forall|i: int, j: int|
            0 <= i < j < m1.tasks.len() ==> (#[trigger] m1.tasks[i]).id < (
            #[trigger] m1.tasks[j]).id,
        forall|i: int| 0 <= i < m1.tasks.len() ==> #[trigger] m1.tasks[i].id < m1.next_task_id,
{
}

proof fn lemma_wf_after_retask(m0: StoreModel, m1: StoreModel)
    requires
        m0.entries.len() == m1.entries.len(),
        m0.tasks == m1.tasks,
        m0.next_task_id == m1.next_task_id,
        forall|i: int|
            0 <= i < m1.entries.len() ==> (#[trigger] m1.entries[i]).uuid == m0.entries[i].uuid,
        unique_uuids(m0.entries),
    ensures
        unique_uuids(m1.entries),
{
}

fn lower_string(s: &str) -> (r: String)
    ensures
        r@ =~= lower_chars(s@),
{
    let n = s.unicode_len();
    let mut out = String::new();
    let mut i: usize = 0;
    proof {
        assert(lower_chars(s@.take(0)) =~= Seq::<char>::empty());
    }
    while i < n
        invariant
            0 <= i <= n,
            n == s@.len(),
            out@ =~= lower_chars(s@.take(i as int)),
        decreases n - i,
    {
        let c = s.get_char(i);
        let cu = c as u32;
        let lc: char = if 65 <= cu && cu <= 90 {
            ((c as u8) + 32) as char
        } else {
            c
        };
        proof {
            assert(lc == lower_char(s@[i as int]));
            assert(s@.take(i + 1) =~= s@.take(i as int).push(s@[i as int]));
            assert(lower_chars(s@.take(i + 1)) =~= lower_chars(s@.take(i as int)).push(
                lower_char(s@[i as int]),
            ));
        }
        trusted::string_push_char(&mut out, lc);
        i += 1;
    }
    proof {
        assert(s@.take(n as int) =~= s@);
    }
    out
}

fn lower_vec(b: &[u8]) -> (r: Vec<u8>)
    ensures
        r@ =~= lower_bytes(b@),
{
    let n = b.len();
    let mut out: Vec<u8> = Vec::new();
    let mut i: usize = 0;
    proof {
        assert(lower_bytes(b@.take(0)) =~= Seq::<u8>::empty());
    }
    while i < n
        invariant
            0 <= i <= n,
            n == b@.len(),
            out@ =~= lower_bytes(b@.take(i as int)),
        decreases n - i,
    {
        let x = b[i];
        let lx: u8 = if 0x41 <= x && x <= 0x5a {
            x + 32
        } else {
            x
        };
        proof {
            assert(lx == lower_byte(b@[i as int]));
            assert(b@.take(i + 1) =~= b@.take(i as int).push(b@[i as int]));
            assert(lower_bytes(b@.take(i + 1)) =~= lower_bytes(b@.take(i as int)).push(
                lower_byte(b@[i as int]),
            ));
        }
        out.push(lx);
        i += 1;
    }
    proof {
        assert(b@.take(n as int) =~= b@);
    }
    out
}

fn contains_ci_chars(hay: &str, pat: &str) -> (r: bool)
    ensures
        r == contains_ci(hay@, pat@),
{
    let lh = lower_string(hay);
    let lp = lower_string(pat);
    helpers::contains_chars(lh.as_str(), lp.as_str())
}

fn contains_ci_blob(hay: &[u8], pat: &str) -> (r: bool)
    ensures
        r == blob_contains_ci(hay@, pat@),
{
    let lh = lower_vec(hay);
    let lp = lower_vec(pat.as_bytes());
    helpers::contains_bytes(lh.as_slice(), lp.as_slice())
}

/// The epoch day a filter date names, or nothing where it is malformed.
fn date_day_number(s: &str) -> (r: Option<i64>)
    ensures
        match r {
            Some(v) => date_day(s@) == Some(v as int) && -719469 <= v < 3000000,
            None => date_day(s@) is None,
        },
{
    let n = s.unicode_len();
    if n != 10 {
        return None;
    }
    if s.get_char(4) != '-' || s.get_char(7) != '-' {
        return None;
    }
    let c0 = s.get_char(0);
    let c1 = s.get_char(1);
    let c2 = s.get_char(2);
    let c3 = s.get_char(3);
    let c5 = s.get_char(5);
    let c6 = s.get_char(6);
    let c8 = s.get_char(8);
    let c9 = s.get_char(9);
    if !digit_ok(c0) || !digit_ok(c1) || !digit_ok(c2) || !digit_ok(c3) || !digit_ok(c5)
        || !digit_ok(c6) || !digit_ok(c8) || !digit_ok(c9) {
        return None;
    }
    let y: u64 = (c0 as u64 - 48) * 1000 + (c1 as u64 - 48) * 100 + (c2 as u64 - 48) * 10 + (
    c3 as u64 - 48);
    let m: u64 = (c5 as u64 - 48) * 10 + (c6 as u64 - 48);
    let d: u64 = (c8 as u64 - 48) * 10 + (c9 as u64 - 48);
    if !(1 <= y && 1 <= m && m <= 12 && 1 <= d && d <= 31) {
        return None;
    }
    let y2: u64 = if m <= 2 {
        y - 1
    } else {
        y
    };
    let era: u64 = y2 / 400;
    let yoe: u64 = y2 - era * 400;
    let mp: u64 = if m > 2 {
        m - 3
    } else {
        m + 9
    };
    let doy: u64 = (153 * mp + 2) / 5 + d - 1;
    let doe: u64 = yoe * 365 + yoe / 4 - yoe / 100 + doy;
    let days: i64 = (era as i64) * 146097 + (doe as i64) - 719468;
    proof {
        assert(parsed_date(s@) == Some((y as int, m as int, d as int)));
        assert(days as int == civil_day(y as int, m as int, d as int));
    }
    Some(days)
}

fn digit_ok(c: char) -> (r: bool)
    ensures
        r == is_digit_char(c),
{
    let cu = c as u32;
    48 <= cu && cu <= 57
}

/// Whether one capture satisfies every given part of a filter.
fn capture_matches(e: &CaptureV2_4, f: &Filters) -> (r: bool)
    ensures
        r == matches_filters(f@, e@),
{
    let from_ok: bool = match &f.date_from {
        None => true,
        Some(d) => match date_day_number(d.as_str()) {
            Some(day) => e.start_time_ms >= day * 86400000,
            None => false,
        },
    };
    let to_ok: bool = match &f.date_to {
        None => true,
        Some(d) => match date_day_number(d.as_str()) {
            Some(day) => e.start_time_ms <= day * 86400000 + 86399999,
            None => false,
        },
    };
    let host_ok: bool = match &f.host {
        None => true,
        Some(h) => contains_ci_chars(e.host.as_str(), h.as_str()),
    };
    let search_ok: bool = match &f.search {
        None => true,
        Some(q) => contains_ci_chars(e.cmd.as_str(), q.as_str()) || contains_ci_chars(
            e.message.as_str(),
            q.as_str(),
        ),
    };
    let content_ok: bool = match &f.search_content {
        None => true,
        Some(q) => contains_ci_chars(e.cmd.as_str(), q.as_str()) || contains_ci_chars(
            e.message.as_str(),
            q.as_str(),
        ) || contains_ci_blob(e.captured_output.as_slice(), q.as_str()) || contains_ci_blob(
            e.original_content.as_slice(),
            q.as_str(),
        ) || contains_ci_blob(e.edited_content.as_slice(), q.as_str()),
    };
    let noop_ok: bool = match f.show_noop {
        Some(true) => true,
        _ => !e.is_noop,
    };
    from_ok && to_ok && host_ok && search_ok && content_ok && noop_ok
}

impl Store {
    /// All captures the filter admits, newest start time first.
    pub fn get_entries(&self, filters: &Filters) -> (r: Vec<CaptureV2_4>)
        requires
            self.wf(),
        ensures
            caps_view(r@).to_multiset() == filter_entries(self@.entries, filters@).to_multiset(),
            forall|i: int, j: int|
                0 <= i < j < r@.len() ==> (#[trigger] r@[i])@.start_time_ms >= (
                #[trigger] r@[j])@.start_time_ms,
            forall|i: int|
                0 <= i < r@.len() ==> matches_filters(filters@, (#[trigger] r@[i])@)
                    && self@.entries.contains(r@[i]@),
    {
        broadcast use vstd::seq_lib::group_to_multiset_ensures;

        let n = self.entries.len();
        let mut picked: Vec<CaptureV2_4> = Vec::new();
        let mut i: usize = 0;
        proof {
            assert(self@.entries.skip(0) =~= self@.entries);
        }
        while i < n
            invariant
                0 <= i <= n,
                n == self.entries@.len(),
                filter_entries(self@.entries, filters@) =~= caps_view(picked@) + filter_entries(
                    self@.entries.skip(i as int),
                    filters@,
                ),
                forall|k: int|
                    0 <= k < picked@.len() ==> matches_filters(filters@, (#[trigger] picked@[k])@)
                        && self@.entries.contains(picked@[k]@),
            decreases n - i,
        {
            proof {
                assert(self@.entries.skip(i as int)[0] == self@.entries[i as int]);
                assert(self@.entries[i as int] == self.entries@[i as int]@);
                assert(self@.entries.skip(i as int).drop_first() =~= self@.entries.skip(i + 1));
            }
            if capture_matches(&self.entries[i], filters) {
                let e = self.entries[i].clone();
                proof {
                    assert(caps_view(picked@.push(e)) =~= caps_view(picked@).push(e@));
                    assert(self@.entries.contains(e@));
                }
                picked.push(e);
            }
            i += 1;
        }
        proof {
            assert(self@.entries.skip(n as int) =~= Seq::<CaptureModel>::empty());
            assert(filter_entries(self@.entries.skip(n as int), filters@) =~= Seq::<
                CaptureModel,
            >::empty());
            assert(filter_entries(self@.entries, filters@) =~= caps_view(picked@));
        }
        sort_by_start_desc(picked)
    }
}

/// The vector reordered so that start times descend.
fn sort_by_start_desc(v: Vec<CaptureV2_4>) -> (r: Vec<CaptureV2_4>)
    ensures
        caps_view(r@).to_multiset() == caps_view(v@).to_multiset(),
        forall|i: int, j: int|
            0 <= i < j < r@.len() ==> (#[trigger] r@[i])@.start_time_ms >= (
            #[trigger] r@[j])@.start_time_ms,
        forall|i: int|
            0 <= i < r@.len() ==> caps_view(v@).contains((#[trigger] r@[i])@),
{
    broadcast use vstd::seq_lib::group_to_multiset_ensures;

    let ghost v0 = caps_view(v@);
    let mut rest = v;
    let mut out: Vec<CaptureV2_4> = Vec::new();
    proof {
        assert(caps_view(out@) =~= Seq::<CaptureModel>::empty());
        assert(caps_view(out@).to_multiset().add(caps_view(rest@).to_multiset()) =~= v0
            .to_multiset());
        assert forall|i: int| 0 <= i < rest@.len() implies v0.contains(
            (#[trigger] rest@[i])@,
        ) by {
            assert(v0[i] == rest@[i]@);
        }
    }
    while rest.len() > 0
        invariant
            caps_view(out@).to_multiset().add(caps_view(rest@).to_multiset()) == v0.to_multiset(),
            forall|i: int, j: int|
                0 <= i < j < out@.len() ==> (#[trigger] out@[i])@.start_time_ms >= (
                #[trigger] out@[j])@.start_time_ms,
            forall|k: int|
                0 <= k < rest@.len() ==> out@.len() > 0 ==> out@.last()@.start_time_ms >= (
                #[trigger] rest@[k])@.start_time_ms,
            forall|i: int| 0 <= i < out@.len() ==> v0.contains((#[trigger] out@[i])@),
            forall|i: int| 0 <= i < rest@.len() ==> v0.contains((#[trigger] rest@[i])@),
        decreases rest@.len(),
    {
        let mut mi: usize = 0;
        let mut j: usize = 1;
        let rn = rest.len();
        while j < rn
            invariant
                0 <= mi < j <= rn,
                rn == rest@.len(),
                forall|k: int|
                    0 <= k < j ==> rest@[mi as int]@.start_time_ms >= (
                    #[trigger] rest@[k])@.start_time_ms,
            decreases rn - j,
        {
            if rest[j].start_time_ms > rest[mi].start_time_ms {
                mi = j;
            }
            j += 1;
        }
        let ghost pre_rest = rest@;
        let ghost pre_out = out@;
        proof {
            caps_view(pre_rest).to_multiset_ensures();
            caps_view(pre_out).to_multiset_ensures();
            assert(caps_view(pre_rest).contains(caps_view(pre_rest)[mi as int])) by {
                assert((mi as int) < caps_view(pre_rest).len());
                assert(caps_view(pre_rest)[mi as int] =~= caps_view(pre_rest)[mi as int]);
            }
            assert(caps_view(pre_rest).to_multiset().count(caps_view(pre_rest)[mi as int]) > 0);
        }
        let x = rest.remove(mi);
        proof {
            caps_view(pre_rest).to_multiset_ensures();
            caps_view(pre_out).to_multiset_ensures();
            assert forall|k: int|
                0 <= k < caps_view(rest@).len() implies caps_view(rest@)[k] == caps_view(
                pre_rest,
            ).remove(mi as int)[k] by {
                if k < mi as int {
                    assert(rest@[k] == pre_rest[k]);
                } else {
                    assert(rest@[k] == pre_rest[k + 1]);
                }
            }
            assert(caps_view(rest@) =~= caps_view(pre_rest).remove(mi as int));
            assert(x@ == caps_view(pre_rest)[mi as int]);
            assert(caps_view(pre_rest).remove(mi as int).to_multiset() =~= caps_view(
                pre_rest,
            ).to_multiset().remove(caps_view(pre_rest)[mi as int]));
            assert(caps_view(rest@).to_multiset() =~= caps_view(pre_rest).to_multiset().remove(
                x@,
            ));
            assert(caps_view(pre_out.push(x)) =~= caps_view(pre_out).push(x@));
            assert(caps_view(pre_out).push(x@).to_multiset() =~= caps_view(
                pre_out,
            ).to_multiset().insert(x@));
            assert(caps_view(pre_out.push(x)).to_multiset() =~= caps_view(
                pre_out,
            ).to_multiset().insert(x@));
            assert(caps_view(pre_out).to_multiset().insert(x@).add(
                caps_view(pre_rest).to_multiset().remove(x@),
            ) =~= caps_view(pre_out).to_multiset().add(caps_view(pre_rest).to_multiset()));
            assert forall|k: int| 0 <= k < rest@.len() implies v0.contains(
                (#[trigger] rest@[k])@,
            ) by {
                if k < mi {
                    assert(rest@[k] == pre_rest[k]);
                } else {
                    assert(rest@[k] == pre_rest[k + 1]);
                }
            }
            assert forall|k: int| 0 <= k < rest@.len() implies x@.start_time_ms >= (
            #[trigger] rest@[k])@.start_time_ms by {
                if k < mi {
                    assert(rest@[k] == pre_rest[k]);
                } else {
                    assert(rest@[k] == pre_rest[k + 1]);
                }
            }
        }
        out.push(x);
    }
    proof {
        assert(caps_view(rest@) =~= Seq::<CaptureModel>::empty());
        assert(caps_view(rest@).to_multiset() =~= Multiset::<CaptureModel>::empty());
        assert(caps_view(out@).to_multiset().add(Multiset::<CaptureModel>::empty()) =~= caps_view(
            out@,
        ).to_multiset());
    }
    out
}

/// The five schema versions are pairwise distinct strings.
proof fn lemma_version_literals()
    ensures
        "2.2.0"@ != "2.3.0"@,
        "2.2.0"@ != "2.4.0"@,
        "2.2.0"@ != "2.5"@,
        "2.2.0"@ != "2.6"@,
        "2.3.0"@ != "2.4.0"@,
        "2.3.0"@ != "2.5"@,
        "2.3.0"@ != "2.6"@,
        "2.4.0"@ != "2.5"@,
        "2.4.0"@ != "2.6"@,
        "2.5"@ != "2.6"@,
{
    reveal_strlit("2.2.0");
    reveal_strlit("2.3.0");
    reveal_strlit("2.4.0");
    reveal_strlit("2.5");
    reveal_strlit("2.6");
    assert("2.2.0"@[2] == '2' && "2.3.0"@[2] == '3' && "2.4.0"@[2] == '4');
    assert("2.5"@[2] == '5' && "2.6"@[2] == '6');
    assert("2.2.0"@.len() == 5 && "2.5"@.len() == 3);
}

/// The table's next version, as executable code.
fn next_version_of(v: &str) -> (r: Option<String>)
    ensures
        match r {
            Some(nv) => next_version(v@) == Some(nv@),
            None => next_version(v@) is None,
        },
{
    proof {
        lemma_version_literals();
    }
    if helpers::str_eq(v, "2.2.0") {
        Some("2.3.0".to_owned())
    } else if helpers::str_eq(v, "2.3.0") {
        Some("2.4.0".to_owned())
    } else if helpers::str_eq(v, "2.4.0") {
        Some("2.5".to_owned())
    } else if helpers::str_eq(v, "2.5") {
        Some("2.6".to_owned())
    } else {
        None
    }
}

impl Store {
    /// Bring the schema log up to the running build's version: a missing
    /// log is initialised fresh at the current version; a clean log is
    /// stepped one version at a time, each step first recorded dirty and
    /// then recorded clean; a dirty log, or one at a version the closed
    /// table cannot step to the current one, is refused, untouched.
    /// Afterwards the latest row is clean and carries the current build's
    /// major.minor.
    pub fn migrate(&mut self, current_version: &str) -> (r: Result<(), StoreError>)
        requires
            old(self).wf(),
            same_major_minor(current_version@, current_version@),
        ensures
            final(self).wf(),
            final(self)@.entries == old(self)@.entries,
            final(self)@.tasks == old(self)@.tasks,
            final(self)@.active_task == old(self)@.active_task,
            final(self)@.next_task_id == old(self)@.next_task_id,
            old(self)@.schema.len() <= final(self)@.schema.len(),
            forall|i: int|
                0 <= i < old(self)@.schema.len() ==> #[trigger] final(self)@.schema[i] == old(
                    self,
                )@.schema[i],
            r is Ok <==> (old(self)@.schema.len() == 0 || (!old(self)@.schema.last().dirty
                && reaches(old(self)@.schema.last().version, current_version@))),
            r is Ok ==> final(self)@.schema.len() > 0 && !final(self)@.schema.last().dirty
                && same_major_minor(final(self)@.schema.last().version, current_version@),
            r == Result::<(), StoreError>::Err(StoreError::DirtySchema) <==> (old(
                self,
            )@.schema.len() > 0 && old(self)@.schema.last().dirty),
            r is Err ==> final(self)@.schema == old(self)@.schema,
            (old(self)@.schema.len() > 0 && !old(self)@.schema.last().dirty && same_major_minor(
                old(self)@.schema.last().version,
                current_version@,
            )) ==> final(self)@.schema == old(self)@.schema,
    {
        let n = self.schema.len();
        if n == 0 {
            let row = MigrationRow {
                version: current_version.to_owned(),
                dirty: false,
                applied_at_ms: trusted::now_millis(),
            };
            proof {
                assert(rows_view(self.schema@.push(row)) =~= rows_view(self.schema@).push(row@));
            }
            self.schema.push(row);
            proof {
                assert(self@.tasks == old(self)@.tasks);
                assert(self@.entries == old(self)@.entries);
                assert(self@.next_task_id == old(self)@.next_task_id);
            }
            return Ok(());
        }
        if self.schema[n - 1].dirty {
            proof {
                assert(old(self)@.schema.last() == self.schema@[n - 1 as int]@);
            }
            return Err(StoreError::DirtySchema);
        }
        let ghost start_v = old(self)@.schema.last().version;
        proof {
            assert(old(self)@.schema.last() == self.schema@[n - 1 as int]@);
        }
        // First decide, without touching the log, whether the chain reaches
        // the current version.
        let mut probe: String = self.schema[n - 1].version.clone();
        proof {
            assert(probe@ == start_v);
        }
        let mut reached = false;
        loop
            invariant_except_break
                !reached,
            invariant
                same_major_minor(current_version@, current_version@),
                reaches(start_v, current_version@) == reaches(probe@, current_version@),
            ensures
                reached == reaches(start_v, current_version@),
            decreases version_rank(probe@),
        {
            if crate::helpers::compare_major_minor_versions(probe.as_str(), current_version) {
                reached = true;
                break ;
            }
            match next_version_of(probe.as_str()) {
                Some(nv) => {
                    proof {
                        lemma_version_literals();
                        lemma_rank_decreases(probe@, nv@);
                    }
                    probe = nv;
                },
                None => {
                    break ;
                },
            }
        }
        if !reached {
            return Err(StoreError::UnsupportedVersion);
        }
        // The chain reaches the current version: apply it step by step.
        // A log already at the current version is left untouched.
        let mut cur: String = self.schema[n - 1].version.clone();
        proof {
            assert(cur@ == start_v);
        }
        if crate::helpers::compare_major_minor_versions(cur.as_str(), current_version) {
            return Ok(());
        }
        loop
            invariant
                self.wf(),
                same_major_minor(current_version@, current_version@),
                reaches(cur@, current_version@),
                old(self)@.schema.len() > 0,
                !old(self)@.schema.last().dirty,
                !same_major_minor(old(self)@.schema.last().version, current_version@),
                reaches(old(self)@.schema.last().version, current_version@),
                self@.entries == old(self)@.entries,
                self@.tasks == old(self)@.tasks,
                self@.active_task == old(self)@.active_task,
                self@.next_task_id == old(self)@.next_task_id,
                self.next_task_id == old(self).next_task_id,
                old(self)@.schema.len() <= self@.schema.len(),
                self@.schema.len() > 0,
                !self@.schema.last().dirty,
                self@.schema.last().version == cur@,
                forall|i: int|
                    0 <= i < old(self)@.schema.len() ==> #[trigger] self@.schema[i] == old(
                        self,
                    )@.schema[i],
            decreases version_rank(cur@),
        {
            if crate::helpers::compare_major_minor_versions(cur.as_str(), current_version) {
                return Ok(());
            }
            match next_version_of(cur.as_str()) {
                Some(nv) => {
                    proof {
                        lemma_version_literals();
                        lemma_rank_decreases(cur@, nv@);
                    }
                    let marked = MigrationRow {
                        version: cur.clone(),
                        dirty: true,
                        applied_at_ms: trusted::now_millis(),
                    };
                    proof {
                        assert(rows_view(self.schema@.push(marked)) =~= rows_view(
                            self.schema@,
                        ).push(marked@));
                    }
                    self.schema.push(marked);
                    let done = MigrationRow {
                        version: nv.clone(),
                        dirty: false,
                        applied_at_ms: trusted::now_millis(),
                    };
                    proof {
                        assert(rows_view(self.schema@.push(done)) =~= rows_view(
                            self.schema@,
                        ).push(done@));
                    }
                    self.schema.push(done);
                    cur = nv;
                },
                None => {
                    proof {
                        assert(false);
                    }
                    return Err(StoreError::UnsupportedVersion);
                },
            }
        }
    }

    /// Redact every given password from every capture; returns how many
    /// captures held at least one of them, and how many captures there are.
    pub fn bulk_redact(&mut self, passwords: &[String]) -> (r: (usize, usize))
        requires
            old(self).wf(),
        ensures
            final(self).wf(),
            final(self)@.entries.len() == old(self)@.entries.len(),
            forall|i: int|
                0 <= i < final(self)@.entries.len() ==> #[trigger] final(self)@.entries[i]
                    == redact_capture(old(self)@.entries[i], pw_views(passwords@)),
            r.0 as int == count_hits(old(self)@.entries, pw_views(passwords@)),
            r.1 == old(self)@.entries.len(),
            final(self)@.tasks == old(self)@.tasks,
            final(self)@.active_task == old(self)@.active_task,
            final(self)@.next_task_id == old(self)@.next_task_id,
            final(self)@.schema == old(self)@.schema,
    {
        let ghost ps = pw_views(passwords@);
        let n = self.entries.len();
        let mut hits: usize = 0;
        let mut i: usize = 0;
        proof {
            assert(old(self)@.entries.skip(0) =~= old(self)@.entries);
        }
        while i < n
            invariant
                0 <= i <= n,
                hits <= i,
                n == self.entries@.len() == old(self)@.entries.len(),
                ps == pw_views(passwords@),
                self@.tasks == old(self)@.tasks,
                self@.active_task == old(self)@.active_task,
                self@.next_task_id == old(self)@.next_task_id,
                self@.schema == old(self)@.schema,
                self.next_task_id == old(self).next_task_id,
                forall|j: int|
                    i <= j < n ==> #[trigger] self@.entries[j] == old(self)@.entries[j],
                forall|j: int|
                    0 <= j < i ==> #[trigger] self@.entries[j] == redact_capture(
                        old(self)@.entries[j],
                        ps,
                    ),
                hits as int + count_hits(old(self)@.entries.skip(i as int), ps) == count_hits(
                    old(self)@.entries,
                    ps,
                ),
            decreases n - i,
        {
            let ghost pre = self@.entries;
            proof {
                assert(self@.entries[i as int] == old(self)@.entries[i as int]);
                assert(old(self)@.entries.skip(i as int)[0] == old(self)@.entries[i as int]);
                assert(old(self)@.entries.skip(i as int).drop_first() =~= old(self)@.entries.skip(
                    i + 1,
                ));
            }
            let mut e = self.entries[i].clone();
            proof {
                assert(e@ == old(self)@.entries[i as int]);
            }
            let hit = crate::helpers::redact_passwords_from_entry(&mut e, passwords);
            proof {
                assert(e@ == redact_capture(old(self)@.entries[i as int], ps));
                assert(hit == capture_hit(old(self)@.entries[i as int], ps));
            }
            if hit {
                hits += 1;
            }
            self.entries.set(i, e);
            proof {
                assert forall|j: int| 0 <= j < n implies #[trigger] self@.entries[j] == (if j
                    == i as int {
                    redact_capture(old(self)@.entries[i as int], ps)
                } else {
                    pre[j]
                }) by {
                    assert(self@.entries[j] == self.entries@[j]@);
                }
            }
            i += 1;
        }
        proof {
            assert(old(self)@.entries.skip(n as int) =~= Seq::<CaptureModel>::empty());
            lemma_redact_keeps_uuids(old(self)@, self@, ps);
        }
        (hits, n)
    }
}

proof fn lemma_rank_decreases(v: Seq<char>, nv: Seq<char>)
    requires
        next_version(v) == Some(nv),
        "2.2.0"@ != "2.3.0"@,
        "2.2.0"@ != "2.4.0"@,
        "2.2.0"@ != "2.5"@,
        "2.3.0"@ != "2.4.0"@,
        "2.3.0"@ != "2.5"@,
        "2.4.0"@ != "2.5"@,
        "2.3.0"@ != "2.6"@,
        "2.4.0"@ != "2.6"@,
        "2.5"@ != "2.6"@,
        "2.2.0"@ != "2.6"@,
    ensures
        version_rank(nv) < version_rank(v),
{
}

proof fn lemma_redact_keeps_uuids(m0: StoreModel, m1: StoreModel, ps: Seq<Seq<char>>)
    requires
        m0.entries.len() == m1.entries.len(),
        forall|i: int|
            0 <= i < m1.entries.len() ==> #[trigger] m1.entries[i] == redact_capture(
                m0.entries[i],
                ps,
            ),
        unique_uuids(m0.entries),
    ensures
        unique_uuids(m1.entries),
{
    assert forall|i: int, j: int|
        0 <= i < j < m1.entries.len() implies (#[trigger] m1.entries[i]).uuid != (
    #[trigger] m1.entries[j]).uuid by {
        assert(m1.entries[i].uuid == m0.entries[i].uuid);
        assert(m1.entries[j].uuid == m0.entries[j].uuid);
    }
}

proof fn lemma_without_uuid_snoc(es: Seq<CaptureModel>, e: CaptureModel, u: Seq<char>)
    ensures
        e.uuid == u ==> without_uuid(es.push(e), u) =~= without_uuid(es, u),
        e.uuid != u ==> without_uuid(es.push(e), u) =~= without_uuid(es, u).push(e),
    decreases es.len(),
{
    if es.len() == 0 {
        assert(es.push(e)[0] == e);
        assert(es.push(e).drop_first() =~= Seq::<CaptureModel>::empty());
        assert(without_uuid(Seq::<CaptureModel>::empty(), u) =~= Seq::<CaptureModel>::empty());
    } else {
        assert(es.push(e)[0] == es[0]);
        assert(es.push(e).drop_first() =~= es.drop_first().push(e));
        lemma_without_uuid_snoc(es.drop_first(), e, u);
    }
}

proof fn lemma_without_uuid_clean(es: Seq<CaptureModel>, u: Seq<char>)
    requires
        forall|k: int| 0 <= k < es.len() ==> (#[trigger] es[k]).uuid != u,
    ensures
        without_uuid(es, u) =~= es,
    decreases es.len(),
{
    if es.len() > 0 {
        assert forall|k: int| 0 <= k < es.drop_first().len() implies (
        #[trigger] es.drop_first()[k]).uuid != u by {
            assert(es.drop_first()[k] == es[k + 1]);
        }
        lemma_without_uuid_clean(es.drop_first(), u);
    }
}

proof fn lemma_count_uuid_snoc(es: Seq<CaptureModel>, e: CaptureModel, u: Seq<char>)
    ensures
        count_uuid(es.push(e), u) == count_uuid(es, u) + (if e.uuid == u {
            1int
        } else {
            0int
        }),
    decreases es.len(),
{
    if es.len() == 0 {
        assert(es.push(e)[0] == e);
        assert(es.push(e).drop_first() =~= Seq::<CaptureModel>::empty());
        assert(count_uuid(Seq::<CaptureModel>::empty(), u) == 0);
    } else {
        assert(es.push(e)[0] == es[0]);
        assert(es.push(e).drop_first() =~= es.drop_first().push(e));
        lemma_count_uuid_snoc(es.drop_first(), e, u);
    }
}

/// Inserting twice under one uuid is the same as inserting the second
/// capture once: exactly one row carries the uuid afterwards, and it holds
/// the second insert's contents (with the active task stamped in).
pub proof fn lemma_add_entry_idempotent(m: StoreModel, c1: CaptureModel, c2: CaptureModel)
    requires
        c1.uuid == c2.uuid,
    ensures
        add_entry_spec(add_entry_spec(m, c1), c2).entries =~= add_entry_spec(m, c2).entries,
        count_uuid(add_entry_spec(add_entry_spec(m, c1), c2).entries, c2.uuid) == 1,
        add_entry_spec(add_entry_spec(m, c1), c2).entries.last() == stamp_task(c2, m.active_task),
{
    let u = c2.uuid;
    let w = without_uuid(m.entries, u);
    let e1 = stamp_task(c1, m.active_task);
    lemma_without_uuid_snoc(w, e1, u);
    lemma_without_uuid_props(m.entries, u);
    lemma_without_uuid_clean(w, u);
    assert(without_uuid(w.push(e1), u) =~= w);
    lemma_count_uuid_snoc(w, stamp_task(c2, m.active_task), u);
    lemma_without_uuid_props(m.entries, u);
}

proof fn lemma_filter_entries_contains(es: Seq<CaptureModel>, f: FiltersModel, e: CaptureModel)
    ensures
        filter_entries(es, f).contains(e) <==> (es.contains(e) && matches_filters(f, e)),
    decreases es.len(),
{
    if es.len() == 0 {
        assert(filter_entries(es, f) =~= Seq::<CaptureModel>::empty());
        assert(!es.contains(e));
    } else {
        lemma_filter_entries_contains(es.drop_first(), f, e);
        let fe = filter_entries(es, f);
        let frest = filter_entries(es.drop_first(), f);
        if matches_filters(f, es[0]) {
            assert(fe =~= seq![es[0]] + frest);
            if fe.contains(e) {
                let k = choose|k: int| 0 <= k < fe.len() && fe[k] == e;
                if k == 0 {
                    assert(e == es[0]);
                    assert(es.contains(e));
                } else {
                    assert(frest[k - 1] == e);
                    assert(frest.contains(e));
                    let p = choose|p: int|
                        0 <= p < es.drop_first().len() && es.drop_first()[p] == e;
                    assert(es[p + 1] == e);
                    assert(es.contains(e));
                }
            }
            if es.contains(e) && matches_filters(f, e) {
                let k = choose|k: int| 0 <= k < es.len() && es[k] == e;
                if k == 0 {
                    assert(fe[0] == e);
                    assert(fe.contains(e));
                } else {
                    assert(es.drop_first()[k - 1] == e);
                    assert(es.drop_first().contains(e));
                    let p = choose|p: int| 0 <= p < frest.len() && frest[p] == e;
                    assert(fe[p + 1] == e);
                    assert(fe.contains(e));
                }
            }
        } else {
            assert(fe =~= frest);
            if es.contains(e) && matches_filters(f, e) {
                let k = choose|k: int| 0 <= k < es.len() && es[k] == e;
                assert(k != 0);
                assert(es.drop_first()[k - 1] == e);
                assert(es.drop_first().contains(e));
            }
            if fe.contains(e) {
                let p = choose|p: int| 0 <= p < es.drop_first().len() && es.drop_first()[p] == e;
                assert(es[p + 1] == e);
                assert(es.contains(e));
            }
        }
    }
}

/// A row listed under a filter that gives only a day range is also listed
/// with no filter at all, and its start time lies inside the inclusive
/// range.  (This holds for any range; an empty range simply lists
/// nothing.)
pub proof fn lemma_date_range_filter(
    es: Seq<CaptureModel>,
    from: Option<Seq<char>>,
    to: Option<Seq<char>>,
    e: CaptureModel,
)
    requires
        filter_entries(es, date_filter(from, to)).contains(e),
    ensures
        filter_entries(es, empty_filter()).contains(e),
        (match from {
            Some(d) => date_day(d) is Some && e.start_time_ms >= day_start_ms(
                date_day(d).unwrap(),
            ),
            None => true,
        }),
        (match to {
            Some(d) => date_day(d) is Some && e.start_time_ms <= day_end_ms(date_day(d).unwrap()),
            None => true,
        }),
{
    lemma_filter_entries_contains(es, date_filter(from, to), e);
    lemma_filter_entries_contains(es, empty_filter(), e);
}

/// After the active task is pointed at `k`, an insert stamps `task_id = k`
/// into the stored row, and the pointer still reads `k` afterwards, so
/// every further insert stamps `k` too until the pointer is moved again.
pub proof fn lemma_active_task_stamping(m: StoreModel, k: int, c: CaptureModel)
    ensures
        add_entry_spec(set_active_task_spec(m, Some(k)), c).entries.len() > 0,
        add_entry_spec(set_active_task_spec(m, Some(k)), c).entries.last() == stamp_task(
            c,
            Some(k),
        ),
        add_entry_spec(set_active_task_spec(m, Some(k)), c).entries.last().task_id == Some(k),
        add_entry_spec(set_active_task_spec(m, Some(k)), c).active_task == Some(k),
{
}

impl Store {
    /// Re-insert one persisted capture, keeping its stored task pointer
    /// (unlike `add_entry`, which stamps the active task).
    pub fn restore_entry(&mut self, capture: CaptureV2_4)
        requires
            old(self).wf(),
        ensures
            final(self).wf(),
            final(self)@.entries =~= without_uuid(old(self)@.entries, capture@.uuid).push(
                capture@,
            ),
            final(self)@.tasks == old(self)@.tasks,
            final(self)@.active_task == old(self)@.active_task,
            final(self)@.next_task_id == old(self)@.next_task_id,
            final(self)@.schema == old(self)@.schema,
    {
        let ghost m0 = self@;
        let ghost u = capture@.uuid;
        let n = self.entries.len();
        let mut kept: Vec<CaptureV2_4> = Vec::new();
        let mut i: usize = 0;
        proof {
            assert(m0.entries.skip(0) =~= m0.entries);
        }
        while i < n
            invariant
                0 <= i <= n,
                n == self.entries@.len(),
                m0 == self@,
                u == capture@.uuid,
                without_uuid(m0.entries, u) =~= caps_view(kept@) + without_uuid(
                    m0.entries.skip(i as int),
                    u,
                ),
            decreases n - i,
        {
            proof {
                assert(m0.entries.skip(i as int)[0] == m0.entries[i as int]);
                assert(m0.entries[i as int] == self.entries@[i as int]@);
                assert(m0.entries.skip(i as int).drop_first() =~= m0.entries.skip(i + 1));
            }
            if !helpers::str_eq(self.entries[i].uuid.as_str(), capture.uuid.as_str()) {
                let e = self.entries[i].clone();
                proof {
                    assert(caps_view(kept@.push(e)) =~= caps_view(kept@).push(e@));
                }
                kept.push(e);
            }
            i += 1;
        }
        proof {
            assert(m0.entries.skip(n as int) =~= Seq::<CaptureModel>::empty());
            assert(without_uuid(m0.entries.skip(n as int), u) =~= Seq::<CaptureModel>::empty());
            assert(without_uuid(m0.entries, u) =~= caps_view(kept@));
            assert(caps_view(kept@.push(capture)) =~= caps_view(kept@).push(capture@));
            lemma_without_uuid_props(m0.entries, u);
        }
        kept.push(capture);
        self.entries = kept;
        proof {
            assert(self@.tasks == old(self)@.tasks);
            assert(self@.next_task_id == old(self)@.next_task_id);
            assert forall|a: int, b: int|
                0 <= a < b < self@.entries.len() implies (#[trigger] self@.entries[a]).uuid != (
            #[trigger] self@.entries[b]).uuid by {
                let w = without_uuid(m0.entries, u);
                if b == self@.entries.len() - 1 {
                    assert(self@.entries[a] == w[a]);
                } else {
                    assert(self@.entries[a] == w[a]);
                    assert(self@.entries[b] == w[b]);
                }
            }
        }
    }

    /// Re-insert one persisted task; identifiers must come back in the
    /// ascending order they were assigned in.
    pub fn restore_task(&mut self, task: Task)
        requires
            old(self).wf(),
            old(self)@.next_task_id <= task@.id,
            task@.id < i64::MAX,
        ensures
            final(self).wf(),
            final(self)@.tasks =~= old(self)@.tasks.push(task@),
            final(self)@.next_task_id == task@.id + 1,
            final(self)@.entries == old(self)@.entries,
            final(self)@.active_task == old(self)@.active_task,
            final(self)@.schema == old(self)@.schema,
    {
        proof {
            assert(tasks_view(self.tasks@.push(task)) =~= tasks_view(self.tasks@).push(task@));
        }
        let id = task.id;
        self.tasks.push(task);
        self.next_task_id = id + 1;
        proof {
            assert(self@.tasks =~= old(self)@.tasks.push(self@.tasks.last()));
            assert forall|a: int, b: int|
                0 <= a < b < self@.tasks.len() implies (#[trigger] self@.tasks[a]).id < (
            #[trigger] self@.tasks[b]).id by {
                if b < old(self)@.tasks.len() {
                    assert(self@.tasks[a] == old(self)@.tasks[a]);
                    assert(self@.tasks[b] == old(self)@.tasks[b]);
                } else {
                    assert(self@.tasks[a] == old(self)@.tasks[a]);
                    assert(old(self)@.tasks[a].id < old(self)@.next_task_id);
                }
            }
            assert forall|a: int|
                0 <= a < self@.tasks.len() implies (#[trigger] self@.tasks[a]).id
                < self@.next_task_id by {
                if a < old(self)@.tasks.len() {
                    assert(self@.tasks[a] == old(self)@.tasks[a]);
                    assert(old(self)@.tasks[a].id < old(self)@.next_task_id);
                }
            }
        }
    }

    /// Re-append one persisted schema-log row.
    pub fn restore_schema_row(&mut self, version: &str, dirty: bool, applied_at_ms: i64)
        requires
            old(self).wf(),
        ensures
            final(self).wf(),
            final(self)@.schema =~= old(self)@.schema.push(
                MigrationModel { version: version@, dirty, applied_at_ms: applied_at_ms as int },
            ),
            final(self)@.entries == old(self)@.entries,
            final(self)@.tasks == old(self)@.tasks,
            final(self)@.active_task == old(self)@.active_task,
            final(self)@.next_task_id == old(self)@.next_task_id,
    {
        let row = MigrationRow { version: version.to_owned(), dirty, applied_at_ms };
        proof {
            assert(rows_view(self.schema@.push(row)) =~= rows_view(self.schema@).push(row@));
        }
        self.schema.push(row);
        proof {
            assert(self@.tasks == old(self)@.tasks);
            assert(self@.entries == old(self)@.entries);
            assert(self@.next_task_id == old(self)@.next_task_id);
        }
    }

    /// The latest schema-log row, if the log holds one.
    pub fn get_schema_version(&self) -> (r: Option<(String, bool)>)
        ensures
            match r {
                Some(vd) => self@.schema.len() > 0 && vd.0@ == self@.schema.last().version && vd.1
                    == self@.schema.last().dirty,
                None => self@.schema.len() == 0,
            },
    {
        let n = self.schema.len();
        if n == 0 {
            return None;
        }
        proof {
            assert(self@.schema[n - 1 as int] == self.schema@[n - 1 as int]@);
        }
        Some((self.schema[n - 1].version.clone(), self.schema[n - 1].dirty))
    }

    /// The whole schema log, oldest row first.
    pub fn get_schema_rows(&self) -> (r: Vec<MigrationRow>)
        ensures
            r@.len() == self@.schema.len(),
            forall|i: int| 0 <= i < r@.len() ==> (#[trigger] r@[i])@ == self@.schema[i],
    {
        let n = self.schema.len();
        let mut out: Vec<MigrationRow> = Vec::new();
        let mut i: usize = 0;
        while i < n
            invariant
                0 <= i <= n,
                n == self.schema@.len(),
                out@.len() == i,
                forall|k: int| 0 <= k < i ==> (#[trigger] out@[k])@ == self@.schema[k],
            decreases n - i,
        {
            let row = MigrationRow {
                version: self.schema[i].version.clone(),
                dirty: self.schema[i].dirty,
                applied_at_ms: self.schema[i].applied_at_ms,
            };
            proof {
                assert(self@.schema[i as int] == self.schema@[i as int]@);
            }
            out.push(row);
            i += 1;
        }
        out
    }
}

} // verus!
