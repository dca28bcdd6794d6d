//! The session core: the scanner and the controller joined over one
//! chunk of child output.
//!
//! Feeding a chunk splits it into pass-through spans and command bodies,
//! forwards pass-through (and unknown-verb replays) to the terminal and to
//! the in-flight capture, and hands each well-formed event to the
//! controller with a fresh stamp of ambient facts.  The whole effect is
//! pinned by [`session_fold`], up to the stamps actually drawn.
use vstd::prelude::*;

use crate::controller::{
    append_output_spec, ctrl_step, CaptureController, CtrlModel, Notice, Stamp, StampModel,
};
use crate::helpers;
use crate::protocol::{parse_cmd, parse_command, ParsedCommand, ParsedModel};
use crate::scanner::{
    items_tokens, prefix_head, protocol_prefix, scan, terminator_byte, ProtocolScanner, ScanItem,
    ScanMode, ScanToken,
};
use crate::store::{Store, StoreModel};
use crate::trusted;

verus! {

/// The mathematical value of a session.
pub struct SessionModel {
    pub scan_state: ScanMode,
    pub ctrl: CtrlModel,
}

/// What feeding a chunk produced: bytes owed to the user's terminal,
/// back-channel replies for the child's stdin, and notices for the user.
pub struct SessionOutput {
    pub tty: Vec<u8>,
    pub replies: Vec<String>,
    pub notices: Vec<Notice>,
}

/// The scanner and controller of one recording session.
pub struct Session {
    scanner: ProtocolScanner,
    controller: CaptureController,
}

impl View for Session {
    type V = SessionModel;

    closed spec fn view(&self) -> SessionModel {
        SessionModel { scan_state: self.scanner@, ctrl: self.controller@ }
    }
}

/// The trace of folding scanner output through the controller.
pub struct SessionTrace {
    pub ctrl: CtrlModel,
    pub store: StoreModel,
    pub tty: Seq<u8>,
    pub replies: Seq<Seq<char>>,
    pub used: int,
}

pub open spec fn strings_view(rs: Seq<String>) -> Seq<Seq<char>> {
    rs.map_values(|r: String| r@)
}

/// The whole effect of a stream of scanner tokens: pass-through bytes go
/// to the terminal and into the in-flight run capture; a body with a
/// known verb and sound arguments steps the controller with the next
/// stamp; a known verb with missing arguments is dropped; an unknown verb
/// is replayed verbatim, marker and terminator included.
pub open spec fn session_fold(
    c: CtrlModel,
    s: StoreModel,
    toks: Seq<ScanToken>,
    stamps: Seq<StampModel>,
) -> SessionTrace
    decreases toks.len(),
{
    if toks.len() == 0 {
        SessionTrace { ctrl: c, store: s, tty: Seq::empty(), replies: Seq::empty(), used: 0 }
    } else {
        match toks[0] {
            ScanToken::Pass(b) => {
                let t = session_fold(
                    append_output_spec(c, seq![b]),
                    s,
                    toks.drop_first(),
                    stamps,
                );
                SessionTrace { tty: seq![b] + t.tty, ..t }
            },
            ScanToken::Cmd(body) => match parse_cmd(body) {
                ParsedModel::Event(e) => {
                    if stamps.len() > 0 {
                        let step = ctrl_step(c, s, e, stamps[0]);
                        let t = session_fold(
                            step.0,
                            step.1,
                            toks.drop_first(),
                            stamps.drop_first(),
                        );
                        SessionTrace {
                            replies: (match step.2 {
                                Some(r) => seq![r],
                                None => Seq::empty(),
                            }) + t.replies,
                            used: t.used + 1,
                            ..t
                        }
                    } else {
                        session_fold(c, s, toks.drop_first(), stamps)
                    }
                },
                ParsedModel::MissingArgs => session_fold(c, s, toks.drop_first(), stamps),
                ParsedModel::Unknown => {
                    let replay = protocol_prefix() + body + seq![terminator_byte()];
                    let t = session_fold(
                        append_output_spec(c, replay),
                        s,
                        toks.drop_first(),
                        stamps,
                    );
                    SessionTrace { tty: replay + t.tty, ..t }
                },
            },
        }
    }
}

/// How many stamps a token stream consumes.
pub open spec fn event_count(toks: Seq<ScanToken>) -> int
    decreases toks.len(),
{
    if toks.len() == 0 {
        0int
    } else {
        (match toks[0] {
            ScanToken::Cmd(body) => if parse_cmd(body) is Event {
                1int
            } else {
                0int
            },
            ScanToken::Pass(_) => 0int,
        }) + event_count(toks.drop_first())
    }
}

proof fn lemma_append_output_empty(c: CtrlModel)
    ensures
        append_output_spec(c, Seq::empty()) == c,
{
    match c.active {
        Some(cap) => {
            if cap.capture_type is Run {
                assert(cap.captured_output + Seq::<u8>::empty() =~= cap.captured_output);
            }
        },
        None => {},
    }
}

proof fn lemma_append_output_concat(c: CtrlModel, a: Seq<u8>, b: Seq<u8>)
    ensures
        append_output_spec(append_output_spec(c, a), b) == append_output_spec(c, a + b),
{
    match c.active {
        Some(cap) => {
            if cap.capture_type is Run {
                assert((cap.captured_output + a) + b =~= cap.captured_output + (a + b));
            }
        },
        None => {},
    }
}

/// A token stream consumes at most the stamps it is given.
proof fn lemma_fold_used_bounds(
    c: CtrlModel,
    s: StoreModel,
    toks: Seq<ScanToken>,
    stamps: Seq<StampModel>,
)
    ensures
        0 <= session_fold(c, s, toks, stamps).used <= stamps.len(),
    decreases toks.len(),
{
    if toks.len() > 0 {
        match toks[0] {
            ScanToken::Pass(b) => {
                lemma_fold_used_bounds(
                    append_output_spec(c, seq![b]),
                    s,
                    toks.drop_first(),
                    stamps,
                );
            },
            ScanToken::Cmd(body) => match parse_cmd(body) {
                ParsedModel::Event(e) => {
                    if stamps.len() > 0 {
                        let step = ctrl_step(c, s, e, stamps[0]);
                        lemma_fold_used_bounds(
                            step.0,
                            step.1,
                            toks.drop_first(),
                            stamps.drop_first(),
                        );
                    } else {
                        lemma_fold_used_bounds(c, s, toks.drop_first(), stamps);
                    }
                },
                ParsedModel::MissingArgs => {
                    lemma_fold_used_bounds(c, s, toks.drop_first(), stamps);
                },
                ParsedModel::Unknown => {
                    let replay = protocol_prefix() + body + seq![terminator_byte()];
                    lemma_fold_used_bounds(
                        append_output_spec(c, replay),
                        s,
                        toks.drop_first(),
                        stamps,
                    );
                },
            },
        }
    }
}

/// With one stamp per event, the fold neither starves nor hoards: it
/// consumes exactly the events' stamps, and extra stamps appended at the
/// end change nothing.
proof fn lemma_fold_stamps_ext(
    c: CtrlModel,
    s: StoreModel,
    toks: Seq<ScanToken>,
    st1: Seq<StampModel>,
    st2: Seq<StampModel>,
)
    requires
        event_count(toks) <= st1.len(),
    ensures
        session_fold(c, s, toks, st1).used == event_count(toks),
        session_fold(c, s, toks, st1 + st2).ctrl == session_fold(c, s, toks, st1).ctrl,
        session_fold(c, s, toks, st1 + st2).store == session_fold(c, s, toks, st1).store,
        session_fold(c, s, toks, st1 + st2).tty =~= session_fold(c, s, toks, st1).tty,
        session_fold(c, s, toks, st1 + st2).replies =~= session_fold(c, s, toks, st1).replies,
        session_fold(c, s, toks, st1 + st2).used == session_fold(c, s, toks, st1).used,
    decreases toks.len(),
{
    if toks.len() > 0 {
        assert(event_count(toks) == (match toks[0] {
            ScanToken::Cmd(body) => if parse_cmd(body) is Event {
                1int
            } else {
                0int
            },
            ScanToken::Pass(_) => 0int,
        }) + event_count(toks.drop_first()));
        lemma_event_count_nonneg(toks.drop_first());
        match toks[0] {
            ScanToken::Pass(b) => {
                lemma_fold_stamps_ext(
                    append_output_spec(c, seq![b]),
                    s,
                    toks.drop_first(),
                    st1,
                    st2,
                );
            },
            ScanToken::Cmd(body) => match parse_cmd(body) {
                ParsedModel::Event(e) => {
                    assert(st1.len() > 0);
                    assert((st1 + st2)[0] == st1[0]);
                    assert((st1 + st2).drop_first() =~= st1.drop_first() + st2);
                    let step = ctrl_step(c, s, e, st1[0]);
                    lemma_fold_stamps_ext(
                        step.0,
                        step.1,
                        toks.drop_first(),
                        st1.drop_first(),
                        st2,
                    );
                },
                ParsedModel::MissingArgs => {
                    lemma_fold_stamps_ext(c, s, toks.drop_first(), st1, st2);
                },
                ParsedModel::Unknown => {
                    let replay = protocol_prefix() + body + seq![terminator_byte()];
                    lemma_fold_stamps_ext(
                        append_output_spec(c, replay),
                        s,
                        toks.drop_first(),
                        st1,
                        st2,
                    );
                },
            },
        }
    }
}

proof fn lemma_event_count_pass(span: Seq<u8>)
    ensures
        event_count(span.map_values(|x: u8| ScanToken::Pass(x))) == 0,
    decreases span.len(),
{
    let m = span.map_values(|x: u8| ScanToken::Pass(x));
    if span.len() > 0 {
        assert(m[0] == ScanToken::Pass(span[0]));
        assert(m.drop_first() =~= span.drop_first().map_values(|x: u8| ScanToken::Pass(x)));
        lemma_event_count_pass(span.drop_first());
    }
}

/// One controller step per complete command span: given one stamp per
/// event, the session fold consumes exactly one stamp for each token
/// whose body parses to an event — so every well-formed marker-to-`;`
/// span steps the controller exactly once, and, by the fold's order,
/// only after every pass-through byte that precedes it in the stream.
pub proof fn lemma_one_event_per_span(
    c: CtrlModel,
    s: StoreModel,
    toks: Seq<ScanToken>,
    stamps: Seq<StampModel>,
)
    requires
        event_count(toks) <= stamps.len(),
    ensures
        session_fold(c, s, toks, stamps).used == event_count(toks),
{
    lemma_fold_stamps_ext(c, s, toks, stamps, Seq::empty());
}

proof fn lemma_event_count_nonneg(toks: Seq<ScanToken>)
    ensures
        event_count(toks) >= 0,
    decreases toks.len(),
{
    if toks.len() > 0 {
        lemma_event_count_nonneg(toks.drop_first());
    }
}

/// Folding a concatenation is folding the parts in turn, handing the
/// second part the stamps the first did not consume.
proof fn lemma_session_fold_concat(
    c: CtrlModel,
    s: StoreModel,
    t1: Seq<ScanToken>,
    t2: Seq<ScanToken>,
    st: Seq<StampModel>,
)
    ensures
        ({
            let f1 = session_fold(c, s, t1, st);
            let f2 = session_fold(f1.ctrl, f1.store, t2, st.skip(f1.used));
            let f = session_fold(c, s, t1 + t2, st);
            &&& f.ctrl == f2.ctrl
            &&& f.store == f2.store
            &&& f.tty =~= f1.tty + f2.tty
            &&& f.replies =~= f1.replies + f2.replies
            &&& f.used == f1.used + f2.used
        }),
    decreases t1.len(),
{
    lemma_fold_used_bounds(c, s, t1, st);
    if t1.len() == 0 {
        assert(t1 + t2 =~= t2);
        assert(st.skip(0) =~= st);
    } else {
        assert((t1 + t2)[0] == t1[0]);
        assert((t1 + t2).drop_first() =~= t1.drop_first() + t2);
        match t1[0] {
            ScanToken::Pass(b) => {
                lemma_session_fold_concat(
                    append_output_spec(c, seq![b]),
                    s,
                    t1.drop_first(),
                    t2,
                    st,
                );
            },
            ScanToken::Cmd(body) => match parse_cmd(body) {
                ParsedModel::Event(e) => {
                    if st.len() > 0 {
                        let step = ctrl_step(c, s, e, st[0]);
                        lemma_session_fold_concat(
                            step.0,
                            step.1,
                            t1.drop_first(),
                            t2,
                            st.drop_first(),
                        );
                        lemma_fold_used_bounds(step.0, step.1, t1.drop_first(), st.drop_first());
                        assert(st.drop_first().skip(
                            session_fold(step.0, step.1, t1.drop_first(), st.drop_first()).used,
                        ) =~= st.skip(
                            session_fold(step.0, step.1, t1.drop_first(), st.drop_first()).used + 1,
                        ));
                    } else {
                        lemma_session_fold_concat(c, s, t1.drop_first(), t2, st);
                    }
                },
                ParsedModel::MissingArgs => {
                    lemma_session_fold_concat(c, s, t1.drop_first(), t2, st);
                },
                ParsedModel::Unknown => {
                    let replay = protocol_prefix() + body + seq![terminator_byte()];
                    lemma_session_fold_concat(
                        append_output_spec(c, replay),
                        s,
                        t1.drop_first(),
                        t2,
                        st,
                    );
                },
            },
        }
    }
}

/// A pure pass-through span folds to one append of the whole span.
proof fn lemma_fold_pass_span(
    c: CtrlModel,
    s: StoreModel,
    span: Seq<u8>,
    stamps: Seq<StampModel>,
)
    ensures
        ({
            let f = session_fold(c, s, span.map_values(|x: u8| ScanToken::Pass(x)), stamps);
            &&& f.ctrl == append_output_spec(c, span)
            &&& f.store == s
            &&& f.tty =~= span
            &&& f.replies =~= Seq::<Seq<char>>::empty()
            &&& f.used == 0
        }),
    decreases span.len(),
{
    let m = span.map_values(|x: u8| ScanToken::Pass(x));
    if span.len() == 0 {
        assert(m =~= Seq::<ScanToken>::empty());
        lemma_append_output_empty(c);
    } else {
        assert(m[0] == ScanToken::Pass(span[0]));
        assert(m.drop_first() =~= span.drop_first().map_values(|x: u8| ScanToken::Pass(x)));
        lemma_fold_pass_span(append_output_spec(c, seq![span[0]]), s, span.drop_first(), stamps);
        lemma_append_output_concat(c, seq![span[0]], span.drop_first());
        assert(seq![span[0]] + span.drop_first() =~= span);
    }
}

fn make_stamp() -> (r: Stamp) {
    let (cols, rows): (u16, u16) = match trusted::terminal_size_now() {
        Some(cr) => cr,
        None => (0, 0),
    };
    Stamp {
        uuid: trusted::fresh_uuid_string(),
        now_ms: trusted::now_millis(),
        local_user: trusted::local_username(),
        term_cols: cols,
        term_rows: rows,
    }
}

/// The bytes an unknown command sequence is replayed as: the marker, the
/// body, and the terminator.
fn replay_bytes(body: &[u8]) -> (r: Vec<u8>)
    ensures
        r@ =~= protocol_prefix() + body@ + seq![terminator_byte()],
{
    let mut v = prefix_head(48);
    proof {
        assert(protocol_prefix().take(48) =~= protocol_prefix());
    }
    helpers::append_bytes(&mut v, body);
    v.push(0x3b);
    v
}

impl Session {
    /// The scanner's body buffer and marker cursor are in bounds.
    pub closed spec fn wf(&self) -> bool {
        self.scanner.wf()
    }

    /// A fresh session for the given build version.
    pub fn new(version: String) -> (r: Self)
        ensures
            r.wf(),
            r@.scan_state == ScanMode::Normal,
            r@.ctrl.version == version@,
            r@.ctrl.active is None,
    {
        Session { scanner: ProtocolScanner::new(), controller: CaptureController::new(version) }
    }

    /// Feed one chunk of child output.  The scanner advances exactly as
    /// the abstract scan does, and the controller, store, terminal bytes
    /// and replies are the session fold of the scan's tokens, under the
    /// stamps drawn for the events in this chunk.
    pub fn process(&mut self, store: &mut Store, chunk: &[u8]) -> (out: SessionOutput)
        requires
            old(self).wf(),
            old(store).wf(),
        ensures
            final(self).wf(),
            final(store).wf(),
            final(self)@.scan_state == scan(old(self)@.scan_state, chunk@).0,
            exists|stamps: Seq<StampModel>|
                {
                    let t = #[trigger] session_fold(
                        old(self)@.ctrl,
                        old(store)@,
                        scan(old(self)@.scan_state, chunk@).1,
                        stamps,
                    );
                    &&& final(self)@.ctrl == t.ctrl
                    &&& final(store)@ == t.store
                    &&& out.tty@ == t.tty
                    &&& strings_view(out.replies@) == t.replies
                },
    {
        let ghost c0 = old(self)@.ctrl;
        let ghost s0 = old(store)@;
        let items = self.scanner.process(chunk);
        let ghost all_toks = items_tokens(items@);
        let mut tty: Vec<u8> = Vec::new();
        let mut replies: Vec<String> = Vec::new();
        let mut notices: Vec<Notice> = Vec::new();
        let ghost mut stamps: Seq<StampModel> = Seq::empty();
        let n = items.len();
        let mut i: usize = 0;
        proof {
            assert(items_tokens(items@.take(0)) =~= Seq::<ScanToken>::empty());
            assert(session_fold(c0, s0, items_tokens(items@.take(0)), stamps).tty =~= tty@);
        }
        while i < n
            invariant
                0 <= i <= n,
                n == items@.len(),
                self.wf(),
                store.wf(),
                self@.scan_state == scan(old(self)@.scan_state, chunk@).0,
                ({
                    let t = session_fold(c0, s0, items_tokens(items@.take(i as int)), stamps);
                    &&& t.ctrl == self@.ctrl
                    &&& t.store == store@
                    &&& t.tty =~= tty@
                    &&& t.replies =~= strings_view(replies@)
                    &&& t.used == stamps.len()
                }),
                event_count(items_tokens(items@.take(i as int))) == stamps.len(),
            decreases n - i,
        {
            let ghost done_toks = items_tokens(items@.take(i as int));
            let ghost item_toks = crate::scanner::item_tokens(items@[i as int]);
            proof {
                assert(items@.take(i + 1) =~= items@.take(i as int).push(items@[i as int]));
                crate::scanner::lemma_items_tokens_push(items@.take(i as int), items@[i as int]);
                lemma_event_count_concat(done_toks, item_toks);
            }
            match &items[i] {
                ScanItem::Pass(bytes) => {
                    proof {
                        assert(item_toks =~= bytes@.map_values(|x: u8| ScanToken::Pass(x)));
                        lemma_event_count_pass(bytes@);
                    }
                    helpers::append_bytes(&mut tty, bytes.as_slice());
                    self.controller.append_output(bytes.as_slice());
                    proof {
                        lemma_session_fold_concat(c0, s0, done_toks, item_toks, stamps);
                        lemma_fold_used_bounds(c0, s0, done_toks, stamps);
                        assert(stamps.skip(stamps.len() as int) =~= Seq::<StampModel>::empty());
                        let f1 = session_fold(c0, s0, done_toks, stamps);
                        lemma_fold_pass_span(
                            f1.ctrl,
                            f1.store,
                            bytes@,
                            Seq::<StampModel>::empty(),
                        );
                    }
                },
                ScanItem::Cmd(body) => {
                    match parse_command(body.as_slice()) {
                        ParsedCommand::Event(ev) => {
                            let stamp = make_stamp();
                            let ghost pre_stamps = stamps;
                            proof {
                                stamps = stamps.push(stamp@);
                                lemma_fold_stamps_ext(
                                    c0,
                                    s0,
                                    done_toks,
                                    pre_stamps,
                                    seq![stamp@],
                                );
                                assert(pre_stamps + seq![stamp@] =~= stamps);
                                lemma_session_fold_concat(c0, s0, done_toks, item_toks, stamps);
                                let f1 = session_fold(c0, s0, done_toks, stamps);
                                assert(stamps.skip(f1.used) =~= seq![stamp@]);
                                assert(item_toks =~= seq![ScanToken::Cmd(body@)]);
                                assert(parse_cmd(body@) == ParsedModel::Event(ev@));
                                lemma_fold_single_cmd(f1.ctrl, f1.store, body@, seq![stamp@]);
                            }
                            let mut outc = self.controller.on_event(store, ev, stamp);
                            match outc.reply {
                                Some(rep) => {
                                    proof {
                                        assert(strings_view(replies@.push(rep)) =~= strings_view(
                                            replies@,
                                        ).push(rep@));
                                    }
                                    replies.push(rep);
                                },
                                None => {},
                            }
                            notices.append(&mut outc.notices);
                        },
                        ParsedCommand::MissingArgs => {
                            notices.push(Notice::MissingArguments);
                            proof {
                                lemma_session_fold_concat(c0, s0, done_toks, item_toks, stamps);
                                assert(item_toks =~= seq![ScanToken::Cmd(body@)]);
                                assert(parse_cmd(body@) == ParsedModel::MissingArgs);
                                let f1 = session_fold(c0, s0, done_toks, stamps);
                                lemma_fold_single_cmd(f1.ctrl, f1.store, body@, stamps.skip(
                                f1.used));
                            }
                        },
                        ParsedCommand::Unknown => {
                            let replay = replay_bytes(body.as_slice());
                            helpers::append_bytes(&mut tty, replay.as_slice());
                            self.controller.append_output(replay.as_slice());
                            proof {
                                lemma_session_fold_concat(c0, s0, done_toks, item_toks, stamps);
                                assert(item_toks =~= seq![ScanToken::Cmd(body@)]);
                                assert(parse_cmd(body@) == ParsedModel::Unknown);
                                let f1 = session_fold(c0, s0, done_toks, stamps);
                                lemma_fold_single_cmd(f1.ctrl, f1.store, body@, stamps.skip(
                                f1.used));
                                assert(replay@ =~= protocol_prefix() + body@ + seq![
                                    terminator_byte(),
                                ]);
                            }
                        },
                    }
                },
            }
            i += 1;
        }
        proof {
            assert(items@.take(n as int) =~= items@);
            assert(items_tokens(items@) == scan(old(self)@.scan_state, chunk@).1);
            let t = session_fold(c0, s0, scan(old(self)@.scan_state, chunk@).1, stamps);
            assert(t.ctrl == self@.ctrl && t.store == store@ && t.tty =~= tty@ && t.replies
                =~= strings_view(replies@));
        }
        SessionOutput { tty, replies, notices }
    }
}

/// Folding a single command body, written out case by case.
proof fn lemma_fold_single_cmd(
    c: CtrlModel,
    s: StoreModel,
    body: Seq<u8>,
    stamps: Seq<StampModel>,
)
    ensures
        parse_cmd(body) is Event && stamps.len() > 0 ==> ({
            let f = session_fold(c, s, seq![ScanToken::Cmd(body)], stamps);
            let step = ctrl_step(c, s, parse_cmd(body)->Event_0, stamps[0]);
            &&& f.ctrl == step.0
            &&& f.store == step.1
            &&& f.tty =~= Seq::<u8>::empty()
            &&& f.replies =~= (match step.2 {
                Some(r) => seq![r],
                None => Seq::<Seq<char>>::empty(),
            })
            &&& f.used == 1
        }),
        parse_cmd(body) is MissingArgs ==> ({
            let f = session_fold(c, s, seq![ScanToken::Cmd(body)], stamps);
            &&& f.ctrl == c
            &&& f.store == s
            &&& f.tty =~= Seq::<u8>::empty()
            &&& f.replies =~= Seq::<Seq<char>>::empty()
            &&& f.used == 0
        }),
        parse_cmd(body) is Unknown ==> ({
            let f = session_fold(c, s, seq![ScanToken::Cmd(body)], stamps);
            let replay = protocol_prefix() + body + seq![terminator_byte()];
            &&& f.ctrl == append_output_spec(c, replay)
            &&& f.store == s
            &&& f.tty =~= replay
            &&& f.replies =~= Seq::<Seq<char>>::empty()
            &&& f.used == 0
        }),
        event_count(seq![ScanToken::Cmd(body)]) == (if parse_cmd(body) is Event {
            1int
        } else {
            0int
        }),
{
    let toks = seq![ScanToken::Cmd(body)];
    assert(toks[0] == ScanToken::Cmd(body));
    assert(toks.drop_first() =~= Seq::<ScanToken>::empty());
    assert(event_count(Seq::<ScanToken>::empty()) == 0);
    match parse_cmd(body) {
        ParsedModel::Event(e) => {
            if stamps.len() > 0 {
                let step = ctrl_step(c, s, e, stamps[0]);
                let inner = session_fold(step.0, step.1, toks.drop_first(), stamps.drop_first());
                assert(inner.ctrl == step.0 && inner.store == step.1);
                assert(inner.tty =~= Seq::<u8>::empty());
                assert(inner.replies =~= Seq::<Seq<char>>::empty());
                assert(inner.used == 0);
                assert((match step.2 {
                    Some(r) => seq![r],
                    None => Seq::<Seq<char>>::empty(),
                }) + inner.replies =~= (match step.2 {
                    Some(r) => seq![r],
                    None => Seq::<Seq<char>>::empty(),
                }));
            }
        },
        ParsedModel::MissingArgs => {
            let inner = session_fold(c, s, toks.drop_first(), stamps);
            assert(inner.ctrl == c && inner.store == s && inner.used == 0);
            assert(inner.tty =~= Seq::<u8>::empty());
            assert(inner.replies =~= Seq::<Seq<char>>::empty());
        },
        ParsedModel::Unknown => {
            let replay = protocol_prefix() + body + seq![terminator_byte()];
            let inner = session_fold(append_output_spec(c, replay), s, toks.drop_first(), stamps);
            assert(inner.ctrl == append_output_spec(c, replay) && inner.store == s && inner.used
                == 0);
            assert(inner.tty =~= Seq::<u8>::empty());
            assert(inner.replies =~= Seq::<Seq<char>>::empty());
            assert(replay + inner.tty =~= replay);
        },
    }
}

proof fn lemma_event_count_concat(t1: Seq<ScanToken>, t2: Seq<ScanToken>)
    ensures
        event_count(t1 + t2) == event_count(t1) + event_count(t2),
    decreases t1.len(),
{
    if t1.len() == 0 {
        assert(t1 + t2 =~= t2);
    } else {
        assert((t1 + t2)[0] == t1[0]);
        assert((t1 + t2).drop_first() =~= t1.drop_first() + t2);
        lemma_event_count_concat(t1.drop_first(), t2);
    }
}

} // verus!
