//! The capture controller: turns protocol events into store writes, the
//! at-most-one in-flight capture buffer, and the heartbeat back-channel
//! reply.  Every transition is pinned by [`ctrl_step`], a function of the
//! previous state, the event, and one [`Stamp`] of ambient facts (fresh
//! uuid, clock, user, terminal size) drawn at the event.
use vstd::prelude::*;

use crate::helpers;
use crate::helpers::{same_major_minor, unescape_spec};
use crate::model::{CaptureModel, CaptureType, CaptureV2_4, Task};
use crate::protocol::{EventModel, ProtocolEvent};
use crate::model::TaskModel;
use crate::store::{add_entry_spec, set_active_task_spec, Store, StoreModel};

verus! {

/// Ambient facts drawn when an event is handled.
pub struct Stamp {
    pub uuid: String,
    pub now_ms: i64,
    pub local_user: String,
    pub term_cols: u16,
    pub term_rows: u16,
}

/// The mathematical value of a stamp.
pub struct StampModel {
    pub uuid: Seq<char>,
    pub now_ms: int,
    pub local_user: Seq<char>,
    pub term_cols: int,
    pub term_rows: int,
}

impl View for Stamp {
    type V = StampModel;

    open spec fn view(&self) -> StampModel {
        StampModel {
            uuid: self.uuid@,
            now_ms: self.now_ms as int,
            local_user: self.local_user@,
            term_cols: self.term_cols as int,
            term_rows: self.term_rows as int,
        }
    }
}

/// A user-facing message the controller decided to raise; rendering is
/// the caller's business.
pub enum Notice {
    StatusActive { active_task: Option<String> },
    HeartbeatAnswered,
    VersionMismatch { version: String },
    RunStarted { cmd: String, host: String, cwd: String },
    EditStarted { filename: String, host: String },
    RunStopped { cmd: String, host: String, cwd: String, exit_code: i32 },
    EditStopped { filename: String, host: String, exit_code: i32 },
    StopWithoutCapture,
    StartDiscardedCapture,
    MissingArguments,
    TaskCreated { task_id: i64, name: String },
    TaskActivated { task_id: i64 },
    TaskMissing { task_id: i64 },
    TaskDeactivated,
    TaskListing { tasks: Vec<Task> },
}

/// What handling one event produced: at most one back-channel reply for
/// the child's stdin, and any notices for the user.
pub struct ControllerOutput {
    pub reply: Option<String>,
    pub notices: Vec<Notice>,
}

/// The mathematical value of the controller.
pub struct CtrlModel {
    pub version: Seq<char>,
    pub active: Option<CaptureModel>,
}

/// The controller: its own build version and the in-flight capture.
pub struct CaptureController {
    version: String,
    active: Option<CaptureV2_4>,
}

impl View for CaptureController {
    type V = CtrlModel;

    closed spec fn view(&self) -> CtrlModel {
        CtrlModel {
            version: self.version@,
            active: match self.active {
                Some(c) => Some(c@),
                None => None,
            },
        }
    }
}

/// The fixed heartbeat reply.
pub open spec fn heartbeat_reply() -> Seq<char> {
    "PRODLOG IS RUNNING\n"@
}

/// A fresh run capture: exit code -1 until the stop arrives, empty
/// contents, the unescaped command, and the stamp's uuid, clock and user.
pub open spec fn fresh_run(
    host: Seq<char>,
    cwd: Seq<char>,
    raw_cmd: Seq<char>,
    message: Seq<char>,
    remote_user: Seq<char>,
    st: StampModel,
) -> CaptureModel {
    CaptureModel {
        capture_type: CaptureType::Run,
        uuid: st.uuid,
        host: host,
        cwd: cwd,
        cmd: unescape_spec(raw_cmd),
        start_time_ms: st.now_ms,
        duration_ms: 0,
        message: message,
        is_noop: false,
        exit_code: -1,
        local_user: st.local_user,
        remote_user: remote_user,
        filename: Seq::empty(),
        terminal_rows: 0,
        terminal_cols: 0,
        task_id: None,
        captured_output: Seq::empty(),
        original_content: Seq::empty(),
        edited_content: Seq::empty(),
    }
}

/// A fresh edit capture: as a run capture, but carrying the filename and
/// the original file contents, and never any terminal output.
pub open spec fn fresh_edit(
    host: Seq<char>,
    cwd: Seq<char>,
    raw_cmd: Seq<char>,
    message: Seq<char>,
    remote_user: Seq<char>,
    filename: Seq<char>,
    original: Seq<u8>,
    st: StampModel,
) -> CaptureModel {
    CaptureModel {
        capture_type: CaptureType::Edit,
        filename: filename,
        original_content: original,
        ..fresh_run(host, cwd, raw_cmd, message, remote_user, st)
    }
}

/// The non-negative wall-clock span from a capture's start to `now`.
pub open spec fn elapsed_ms(start: int, now: int) -> int {
    if now >= start {
        now - start
    } else {
        0
    }
}

/// A capture completed by its stop event: exit code, duration, and the
/// terminal size at stop.
pub open spec fn finish_capture(cap: CaptureModel, exit_code: int, st: StampModel) -> CaptureModel {
    CaptureModel {
        exit_code: exit_code,
        duration_ms: elapsed_ms(cap.start_time_ms, st.now_ms),
        terminal_rows: st.term_rows,
        terminal_cols: st.term_cols,
        ..cap
    }
}

/// Whether some task in the store carries the given identifier.
pub open spec fn task_exists(s: StoreModel, id: int) -> bool {
    exists|j: int| 0 <= j < s.tasks.len() && (#[trigger] s.tasks[j]).id == id
}

/// What creating a task does (mirroring `Store::create_task`, including
/// the dead identifier-exhaustion branch).
pub open spec fn create_task_spec(s: StoreModel, name: Seq<char>, created_at_ms: int) -> (
    StoreModel,
    int,
) {
    let id = s.next_task_id;
    if id < i64::MAX {
        (
            StoreModel {
                tasks: s.tasks.push(TaskModel { id, name, created_at_ms }),
                next_task_id: id + 1,
                ..s
            },
            id,
        )
    } else {
        (s, id)
    }
}

/// The complete transition of the controller and store on one event.
pub open spec fn ctrl_step(c: CtrlModel, s: StoreModel, e: EventModel, st: StampModel) -> (
    CtrlModel,
    StoreModel,
    Option<Seq<char>>,
) {
    match e {
        EventModel::StatusCheck => (c, s, None),
        EventModel::Heartbeat { version } => {
            if same_major_minor(version, c.version) {
                (c, s, Some(heartbeat_reply()))
            } else {
                (c, s, None)
            }
        },
        EventModel::RunStart { host, cwd, raw_cmd, message, remote_user } => {
            (
                CtrlModel {
                    active: Some(fresh_run(host, cwd, raw_cmd, message, remote_user, st)),
                    ..c
                },
                s,
                None,
            )
        },
        EventModel::RunStop { exit_code } => {
            match c.active {
                Some(cap) => (
                    CtrlModel { active: None, ..c },
                    add_entry_spec(s, finish_capture(cap, exit_code, st)),
                    None,
                ),
                None => (c, s, None),
            }
        },
        EventModel::EditStart { host, cwd, raw_cmd, message, remote_user, filename, original } => {
            (
                CtrlModel {
                    active: Some(
                        fresh_edit(host, cwd, raw_cmd, message, remote_user, filename, original, st),
                    ),
                    ..c
                },
                s,
                None,
            )
        },
        EventModel::EditStop { exit_code, edited } => {
            match c.active {
                Some(cap) => (
                    CtrlModel { active: None, ..c },
                    add_entry_spec(
                        s,
                        CaptureModel { edited_content: edited, ..finish_capture(cap, exit_code, st) },
                    ),
                    None,
                ),
                None => (c, s, None),
            }
        },
        EventModel::TaskCreate { name } => {
            let (s1, id) = create_task_spec(s, name, st.now_ms);
            (c, set_active_task_spec(s1, Some(id)), None)
        },
        EventModel::TaskList => (c, s, None),
        EventModel::TaskSetActive { task_id } => {
            if task_exists(s, task_id) {
                (c, set_active_task_spec(s, Some(task_id)), None)
            } else {
                (c, s, None)
            }
        },
        EventModel::TaskUnsetActive => (c, set_active_task_spec(s, None), None),
    }
}

/// Pass-through bytes flow into the in-flight run capture; edit captures
/// never record terminal output, and with no capture nothing is kept.
pub open spec fn append_output_spec(c: CtrlModel, b: Seq<u8>) -> CtrlModel {
    match c.active {
        Some(cap) => {
            if cap.capture_type is Run {
                CtrlModel {
                    active: Some(
                        CaptureModel { captured_output: cap.captured_output + b, ..cap },
                    ),
                    ..c
                }
            } else {
                c
            }
        },
        None => c,
    }
}

impl CaptureController {
    /// A controller for the given build version, with nothing in flight.
    pub fn new(version: String) -> (r: Self)
        ensures
            r@.version == version@,
            r@.active is None,
    {
        CaptureController { version, active: None }
    }

    /// Record pass-through bytes into the in-flight run capture, if any.
    pub fn append_output(&mut self, bytes: &[u8])
        ensures
            final(self)@ == append_output_spec(old(self)@, bytes@),
    {
        let mut tmp: Option<CaptureV2_4> = None;
        core::mem::swap(&mut tmp, &mut self.active);
        match tmp {
            Some(mut cap) => {
                if cap.capture_type == CaptureType::Run {
                    let ghost pre_out = cap.captured_output@;
                    cap.captured_output.extend_from_slice(bytes);
                    proof {
                        assert forall|i: int|
                            0 <= i < cap.captured_output@.len() implies cap.captured_output@[i]
                            == (pre_out + bytes@)[i] by {
                            if i >= pre_out.len() {
                                assert(cloned::<u8>(bytes@[i - pre_out.len()],
                                cap.captured_output@[i]));
                            }
                        }
                        assert(cap.captured_output@ =~= pre_out + bytes@);
                    }
                }
                self.active = Some(cap);
            },
            None => {
                self.active = None;
            },
        }
    }

    /// Handle one parsed protocol event with the given stamp of ambient
    /// facts; the whole effect is `ctrl_step`.
    pub fn on_event(&mut self, store: &mut Store, event: ProtocolEvent, stamp: Stamp) -> (out:
        ControllerOutput)
        requires
            old(store).wf(),
        ensures
            final(store).wf(),
            final(self)@ == ctrl_step(old(self)@, old(store)@, event@, stamp@).0,
            final(store)@ == ctrl_step(old(self)@, old(store)@, event@, stamp@).1,
            crate::model::opt_string_view(out.reply) == ctrl_step(
                old(self)@,
                old(store)@,
                event@,
                stamp@,
            ).2,
    {
        let mut notices: Vec<Notice> = Vec::new();
        match event {
            ProtocolEvent::StatusCheck => {
                let active_task = match store.get_active_task() {
                    Some(id) => match store.get_task_by_id(id) {
                        Some(t) => Some(t.name),
                        None => None,
                    },
                    None => None,
                };
                notices.push(Notice::StatusActive { active_task });
                proof {
                    assert(self@ == ctrl_step(old(self)@, old(store)@, event@, stamp@).0);
                }
                ControllerOutput { reply: None, notices }
            },
            ProtocolEvent::Heartbeat { version } => {
                if helpers::compare_major_minor_versions(version.as_str(), self.version.as_str()) {
                    notices.push(Notice::HeartbeatAnswered);
                    ControllerOutput {
                        reply: Some("PRODLOG IS RUNNING\n".to_owned()),
                        notices,
                    }
                } else {
                    notices.push(Notice::VersionMismatch { version });
                    proof {
                        assert(self@ == ctrl_step(old(self)@, old(store)@, event@, stamp@).0);
                    }
                    ControllerOutput { reply: None, notices }
                }
            },
            ProtocolEvent::RunStart { host, cwd, raw_cmd, message, remote_user } => {
                if self.active.is_some() {
                    notices.push(Notice::StartDiscardedCapture);
                }
                let cmd = helpers::unescape_and_unquote_cmd(raw_cmd.as_str());
                notices.push(
                    Notice::RunStarted { cmd: cmd.clone(), host: host.clone(), cwd: cwd.clone() },
                );
                let cap = CaptureV2_4 {
                    capture_type: CaptureType::Run,
                    uuid: stamp.uuid,
                    host,
                    cwd,
                    cmd,
                    start_time_ms: stamp.now_ms,
                    duration_ms: 0,
                    message,
                    is_noop: false,
                    exit_code: -1,
                    local_user: stamp.local_user,
                    remote_user,
                    filename: String::new(),
                    terminal_rows: 0,
                    terminal_cols: 0,
                    task_id: None,
                    captured_output: Vec::new(),
                    original_content: Vec::new(),
                    edited_content: Vec::new(),
                };
                self.active = Some(cap);
                proof {
                    assert(self@ == ctrl_step(old(self)@, old(store)@, event@, stamp@).0);
                }
                ControllerOutput { reply: None, notices }
            },
            ProtocolEvent::RunStop { exit_code } => {
                let mut tmp: Option<CaptureV2_4> = None;
                core::mem::swap(&mut tmp, &mut self.active);
                match tmp {
                    Some(cap) => {
                        let done = finalize(cap, exit_code, &stamp);
                        proof {
                            assert(done@ == finish_capture(
                                old(self)@.active.unwrap(),
                                exit_code as int,
                                stamp@,
                            ));
                        }
                        notices.push(
                            Notice::RunStopped {
                                cmd: done.cmd.clone(),
                                host: done.host.clone(),
                                cwd: done.cwd.clone(),
                                exit_code,
                            },
                        );
                        store.add_entry(done);
                    },
                    None => {
                        notices.push(Notice::StopWithoutCapture);
                    },
                }
                proof {
                    assert(self@ == ctrl_step(old(self)@, old(store)@, event@, stamp@).0);
                }
                ControllerOutput { reply: None, notices }
            },
            ProtocolEvent::EditStart {
                host,
                cwd,
                raw_cmd,
                message,
                remote_user,
                filename,
                original,
            } => {
                if self.active.is_some() {
                    notices.push(Notice::StartDiscardedCapture);
                }
                let cmd = helpers::unescape_and_unquote_cmd(raw_cmd.as_str());
                notices.push(
                    Notice::EditStarted { filename: filename.clone(), host: host.clone() },
                );
                let cap = CaptureV2_4 {
                    capture_type: CaptureType::Edit,
                    uuid: stamp.uuid,
                    host,
                    cwd,
                    cmd,
                    start_time_ms: stamp.now_ms,
                    duration_ms: 0,
                    message,
                    is_noop: false,
                    exit_code: -1,
                    local_user: stamp.local_user,
                    remote_user,
                    filename,
                    terminal_rows: 0,
                    terminal_cols: 0,
                    task_id: None,
                    captured_output: Vec::new(),
                    original_content: original,
                    edited_content: Vec::new(),
                };
                self.active = Some(cap);
                proof {
                    assert(self@ == ctrl_step(old(self)@, old(store)@, event@, stamp@).0);
                }
                ControllerOutput { reply: None, notices }
            },
            ProtocolEvent::EditStop { exit_code, edited } => {
                let mut tmp: Option<CaptureV2_4> = None;
                core::mem::swap(&mut tmp, &mut self.active);
                match tmp {
                    Some(cap) => {
                        let mut done = finalize(cap, exit_code, &stamp);
                        done.edited_content = edited;
                        notices.push(
                            Notice::EditStopped {
                                filename: done.filename.clone(),
                                host: done.host.clone(),
                                exit_code,
                            },
                        );
                        store.add_entry(done);
                    },
                    None => {
                        notices.push(Notice::StopWithoutCapture);
                    },
                }
                proof {
                    assert(self@ == ctrl_step(old(self)@, old(store)@, event@, stamp@).0);
                }
                ControllerOutput { reply: None, notices }
            },
            ProtocolEvent::TaskCreate { name } => {
                let id = store.create_task(name.as_str(), stamp.now_ms);
                store.set_active_task(Some(id));
                proof {
                    assert(store@ == ctrl_step(old(self)@, old(store)@, event@, stamp@).1);
                }
                notices.push(Notice::TaskCreated { task_id: id, name });
                proof {
                    assert(self@ == ctrl_step(old(self)@, old(store)@, event@, stamp@).0);
                }
                ControllerOutput { reply: None, notices }
            },
            ProtocolEvent::TaskList => {
                let tasks = store.get_all_tasks();
                notices.push(Notice::TaskListing { tasks });
                proof {
                    assert(self@ == ctrl_step(old(self)@, old(store)@, event@, stamp@).0);
                }
                ControllerOutput { reply: None, notices }
            },
            ProtocolEvent::TaskSetActive { task_id } => {
                match store.get_task_by_id(task_id) {
                    Some(t) => {
                        proof {
                            let j = choose|j: int|
                                0 <= j < old(store)@.tasks.len() && old(store)@.tasks[j] == t@;
                            assert((old(store)@.tasks[j]).id == task_id as int);
                            assert(task_exists(old(store)@, task_id as int));
                        }
                        store.set_active_task(Some(task_id));
                        notices.push(Notice::TaskActivated { task_id });
                    },
                    None => {
                        proof {
                            assert(!task_exists(old(store)@, task_id as int));
                        }
                        notices.push(Notice::TaskMissing { task_id });
                    },
                }
                proof {
                    assert(self@ == ctrl_step(old(self)@, old(store)@, event@, stamp@).0);
                }
                ControllerOutput { reply: None, notices }
            },
            ProtocolEvent::TaskUnsetActive => {
                store.set_active_task(None);
                notices.push(Notice::TaskDeactivated);
                proof {
                    assert(self@ == ctrl_step(old(self)@, old(store)@, event@, stamp@).0);
                }
                ControllerOutput { reply: None, notices }
            },
        }
    }
}

/// Complete a capture with its exit code, elapsed time, and the terminal
/// size recorded in the stamp.
fn finalize(cap: CaptureV2_4, exit_code: i32, stamp: &Stamp) -> (r: CaptureV2_4)
    ensures
        r@ == finish_capture(cap@, exit_code as int, stamp@),
{
    let mut done = cap;
    done.exit_code = exit_code;
    let span: i128 = (stamp.now_ms as i128) - (done.start_time_ms as i128);
    done.duration_ms = if span >= 0 {
        span as u64
    } else {
        0
    };
    done.terminal_rows = stamp.term_rows;
    done.terminal_cols = stamp.term_cols;
    done
}

} // verus!
