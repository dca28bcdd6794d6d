//! Streaming scanner for the in-band control protocol.
//!
//! The child shell's output is an arbitrary byte stream in which command
//! sequences may appear, each introduced by a fixed 48-byte marker and
//! terminated by a single `;`.  The scanner consumes the stream in chunks
//! of any size and splits it, byte-exactly and in order, into pass-through
//! spans (bytes owed verbatim to the user's terminal) and command bodies.
//!
//! The behaviour is pinned by the spec functions [`scan_step`] and [`scan`];
//! the laws at the bottom state transparency for protocol-free streams,
//! reconstruction of the input from the output, and resumability across
//! arbitrary chunk boundaries.
use vstd::prelude::*;

verus! {

/// Byte `i` of the fixed 48-byte command marker
/// `SUB (dd0d3038-1d43-11f0-9761-022486cd4c38) PRODLOG:`.
pub open spec fn prefix_byte(i: int) -> u8 {
    if i == 0 {
        0x1a
    } else if i == 1 {
        0x28
    } else if i == 2 {
        0x64
    } else if i == 3 {
        0x64
    } else if i == 4 {
        0x30
    } else if i == 5 {
        0x64
    } else if i == 6 {
        0x33
    } else if i == 7 {
        0x30
    } else if i == 8 {
        0x33
    } else if i == 9 {
        0x38
    } else if i == 10 {
        0x2d
    } else if i == 11 {
        0x31
    } else if i == 12 {
        0x64
    } else if i == 13 {
        0x34
    } else if i == 14 {
        0x33
    } else if i == 15 {
        0x2d
    } else if i == 16 {
        0x31
    } else if i == 17 {
        0x31
    } else if i == 18 {
        0x66
    } else if i == 19 {
        0x30
    } else if i == 20 {
        0x2d
    } else if i == 21 {
        0x39
    } else if i == 22 {
        0x37
    } else if i == 23 {
        0x36
    } else if i == 24 {
        0x31
    } else if i == 25 {
        0x2d
    } else if i == 26 {
        0x30
    } else if i == 27 {
        0x32
    } else if i == 28 {
        0x32
    } else if i == 29 {
        0x34
    } else if i == 30 {
        0x38
    } else if i == 31 {
        0x36
    } else if i == 32 {
        0x63
    } else if i == 33 {
        0x64
    } else if i == 34 {
        0x34
    } else if i == 35 {
        0x63
    } else if i == 36 {
        0x33
    } else if i == 37 {
        0x38
    } else if i == 38 {
        0x29
    } else if i == 39 {
        0x20
    } else if i == 40 {
        0x50
    } else if i == 41 {
        0x52
    } else if i == 42 {
        0x4f
    } else if i == 43 {
        0x44
    } else if i == 44 {
        0x4c
    } else if i == 45 {
        0x4f
    } else if i == 46 {
        0x47
    } else {
        0x3a
    }
}

/// The whole 48-byte command marker.
pub open spec fn protocol_prefix() -> Seq<u8> {
    Seq::new(48, |i: int| prefix_byte(i))
}

/// The command terminator `;`.
pub open spec fn terminator_byte() -> u8 {
    0x3b
}

/// Abstract scanner state: between command markers, part way through
/// matching the marker, or accumulating a command body.
pub enum ScanMode {
    Normal,
    Matching(int),
    Body(Seq<u8>),
}

/// One unit of scanner output: a single pass-through byte, or the body of
/// one complete command sequence (the bytes between the marker and `;`).
pub enum ScanToken {
    Pass(u8),
    Cmd(Seq<u8>),
}

/// A `Matching` count is always a proper non-empty prefix of the marker.
pub open spec fn wf_mode(st: ScanMode) -> bool {
    match st {
        ScanMode::Matching(k) => 1 <= k < 48,
        _ => true,
    }
}

/// One byte of input: the complete transition function of the scanner.
/// On a marker mismatch the bytes matched so far are replayed as
/// pass-through and the offending byte is reconsidered from `Normal`,
/// since it may itself begin a fresh marker.
pub open spec fn scan_step(st: ScanMode, b: u8) -> (ScanMode, Seq<ScanToken>)
    decreases (match st {
        ScanMode::Matching(_) => 1int,
        _ => 0int,
    }),
{
    match st {
        ScanMode::Normal => {
            if b == prefix_byte(0) {
                (ScanMode::Matching(1), Seq::empty())
            } else {
                (ScanMode::Normal, seq![ScanToken::Pass(b)])
            }
        },
        ScanMode::Matching(k) => {
            if b == prefix_byte(k) {
                if k + 1 == 48 {
                    (ScanMode::Body(Seq::empty()), Seq::empty())
                } else {
                    (ScanMode::Matching(k + 1), Seq::empty())
                }
            } else {
                let (st2, toks) = scan_step(ScanMode::Normal, b);
                (
                    st2,
                    protocol_prefix().take(k).map_values(|x: u8| ScanToken::Pass(x)) + toks,
                )
            }
        },
        ScanMode::Body(buf) => {
            if b == terminator_byte() {
                (ScanMode::Normal, seq![ScanToken::Cmd(buf)])
            } else {
                (ScanMode::Body(buf.push(b)), Seq::empty())
            }
        },
    }
}

/// The scanner folded over a whole input sequence.
pub open spec fn scan(st: ScanMode, s: Seq<u8>) -> (ScanMode, Seq<ScanToken>)
    decreases s.len(),
{
    if s.len() == 0 {
        (st, Seq::empty())
    } else {
        let (st1, t1) = scan_step(st, s[0]);
        let (st2, t2) = scan(st1, s.drop_first());
        (st2, t1 + t2)
    }
}

pub proof fn lemma_scan_snoc(st: ScanMode, s: Seq<u8>, b: u8)
    ensures
        scan(st, s.push(b)).0 == scan_step(scan(st, s).0, b).0,
        scan(st, s.push(b)).1 =~= scan(st, s).1 + scan_step(scan(st, s).0, b).1,
    decreases s.len(),
{
    if s.len() == 0 {
        let (st1, t1) = scan_step(st, b);
        assert(s =~= Seq::<u8>::empty());
        assert(s.push(b)[0] == b);
        assert(s.push(b).drop_first() =~= Seq::<u8>::empty());
        assert(scan(st1, Seq::<u8>::empty()).1 =~= Seq::<ScanToken>::empty());
        assert(scan(st, s.push(b)).0 == st1);
        assert(scan(st, s.push(b)).1 =~= t1);
        assert(scan(st, s).0 == st);
        assert(scan(st, s).1 =~= Seq::<ScanToken>::empty());
    } else {
        assert(s.push(b)[0] == s[0]);
        assert(s.push(b).drop_first() =~= s.drop_first().push(b));
        let (st1, t1) = scan_step(st, s[0]);
        lemma_scan_snoc(st1, s.drop_first(), b);
        assert(scan(st, s.push(b)).1 =~= t1 + scan(st1, s.drop_first().push(b)).1);
        assert(scan(st, s).1 =~= t1 + scan(st1, s.drop_first()).1);
    }
}

/// Chunking does not matter: scanning `s1` and then `s2` from the state
/// the first scan left behind gives the same final state and the same
/// output as scanning `s1 + s2` in one piece.
pub proof fn lemma_scan_concat(st: ScanMode, s1: Seq<u8>, s2: Seq<u8>)
    ensures
        scan(st, s1 + s2).0 == scan(scan(st, s1).0, s2).0,
        scan(st, s1 + s2).1 =~= scan(st, s1).1 + scan(scan(st, s1).0, s2).1,
    decreases s1.len(),
{
    if s1.len() == 0 {
        assert(s1 + s2 =~= s2);
    } else {
        assert((s1 + s2)[0] == s1[0]);
        assert((s1 + s2).drop_first() =~= s1.drop_first() + s2);
        let (st1, t1) = scan_step(st, s1[0]);
        lemma_scan_concat(st1, s1.drop_first(), s2);
    }
}

/// Bytes the scanner has consumed but not yet accounted for in its output.
pub open spec fn pending_bytes(st: ScanMode) -> Seq<u8> {
    match st {
        ScanMode::Normal => Seq::empty(),
        ScanMode::Matching(k) => protocol_prefix().take(k),
        ScanMode::Body(buf) => protocol_prefix() + buf,
    }
}

/// The input bytes that one output token stands for.
pub open spec fn token_bytes(t: ScanToken) -> Seq<u8> {
    match t {
        ScanToken::Pass(b) => seq![b],
        ScanToken::Cmd(body) => protocol_prefix() + body + seq![terminator_byte()],
    }
}

/// The input bytes that a whole output stands for, in order.
pub open spec fn rebuild(ts: Seq<ScanToken>) -> Seq<u8>
    decreases ts.len(),
{
    if ts.len() == 0 {
        Seq::empty()
    } else {
        token_bytes(ts[0]) + rebuild(ts.drop_first())
    }
}

proof fn lemma_rebuild_singleton(t: ScanToken)
    ensures
        rebuild(seq![t]) =~= token_bytes(t),
{
    assert(seq![t][0] == t);
    assert(seq![t].drop_first() =~= Seq::<ScanToken>::empty());
    assert(rebuild(Seq::<ScanToken>::empty()) =~= Seq::<u8>::empty());
}

pub proof fn lemma_rebuild_concat(t1: Seq<ScanToken>, t2: Seq<ScanToken>)
    ensures
        rebuild(t1 + t2) =~= rebuild(t1) + rebuild(t2),
    decreases t1.len(),
{
    if t1.len() == 0 {
        assert(t1 + t2 =~= t2);
    } else {
        assert((t1 + t2)[0] == t1[0]);
        assert((t1 + t2).drop_first() =~= t1.drop_first() + t2);
        lemma_rebuild_concat(t1.drop_first(), t2);
    }
}

proof fn lemma_rebuild_pass_map(s: Seq<u8>)
    ensures
        rebuild(s.map_values(|x: u8| ScanToken::Pass(x))) =~= s,
    decreases s.len(),
{
    let m = s.map_values(|x: u8| ScanToken::Pass(x));
    if s.len() > 0 {
        assert(m[0] == ScanToken::Pass(s[0]));
        assert(m.drop_first() =~= s.drop_first().map_values(|x: u8| ScanToken::Pass(x)));
        lemma_rebuild_pass_map(s.drop_first());
    }
}

proof fn lemma_step_wf(st: ScanMode, b: u8)
    requires
        wf_mode(st),
    ensures
        wf_mode(scan_step(st, b).0),
    decreases (match st {
        ScanMode::Matching(_) => 1int,
        _ => 0int,
    }),
{
    if st is Matching && b != prefix_byte(st->Matching_0) {
        lemma_step_wf(ScanMode::Normal, b);
    }
}

/// The transition function written out case by case.
pub proof fn lemma_scan_step_cases(st: ScanMode, b: u8)
    requires
        wf_mode(st),
    ensures
        st is Normal && b == prefix_byte(0) ==> scan_step(st, b).0 == ScanMode::Matching(1)
            && scan_step(st, b).1 =~= Seq::<ScanToken>::empty(),
        st is Normal && b != prefix_byte(0) ==> scan_step(st, b).0 == ScanMode::Normal
            && scan_step(st, b).1 =~= seq![ScanToken::Pass(b)],
        st is Matching && b == prefix_byte(st->Matching_0) && st->Matching_0 + 1 == 48
            ==> scan_step(st, b).0 == ScanMode::Body(Seq::<u8>::empty())
            && scan_step(st, b).1 =~= Seq::<ScanToken>::empty(),
        st is Matching && b == prefix_byte(st->Matching_0) && st->Matching_0 + 1 < 48
            ==> scan_step(st, b).0 == ScanMode::Matching(st->Matching_0 + 1)
            && scan_step(st, b).1 =~= Seq::<ScanToken>::empty(),
        st is Matching && b != prefix_byte(st->Matching_0) && b == prefix_byte(0)
            ==> scan_step(st, b).0 == ScanMode::Matching(1)
            && scan_step(st, b).1 =~= protocol_prefix().take(st->Matching_0).map_values(
            |x: u8| ScanToken::Pass(x)),
        st is Matching && b != prefix_byte(st->Matching_0) && b != prefix_byte(0)
            ==> scan_step(st, b).0 == ScanMode::Normal
            && scan_step(st, b).1 =~= protocol_prefix().take(st->Matching_0).map_values(
            |x: u8| ScanToken::Pass(x)) + seq![ScanToken::Pass(b)],
        st is Body && b == terminator_byte() ==> scan_step(st, b).0 == ScanMode::Normal
            && scan_step(st, b).1 =~= seq![ScanToken::Cmd(st->Body_0)],
        st is Body && b != terminator_byte() ==> scan_step(st, b).0 == ScanMode::Body(
            st->Body_0.push(b),
        ) && scan_step(st, b).1 =~= Seq::<ScanToken>::empty(),
{
    if st is Matching && b != prefix_byte(st->Matching_0) {
        assert(scan_step(ScanMode::Normal, b).0 == scan_step(st, b).0);
    }
}

proof fn lemma_step_reconstruction(st: ScanMode, b: u8)
    requires
        wf_mode(st),
    ensures
        pending_bytes(st) + seq![b] =~= rebuild(scan_step(st, b).1) + pending_bytes(
            scan_step(st, b).0,
        ),
    decreases (match st {
        ScanMode::Matching(_) => 1int,
        _ => 0int,
    }),
{
    match st {
        ScanMode::Normal => {
            if b == prefix_byte(0) {
                assert(protocol_prefix().take(1) =~= seq![prefix_byte(0)]);
            } else {
                lemma_rebuild_singleton(ScanToken::Pass(b));
            }
        },
        ScanMode::Matching(k) => {
            if b == prefix_byte(k) {
                if k + 1 == 48 {
                    assert(protocol_prefix() + Seq::<u8>::empty() =~= protocol_prefix().take(k)
                        + seq![b]);
                } else {
                    assert(protocol_prefix().take(k + 1) =~= protocol_prefix().take(k) + seq![b]);
                }
            } else {
                lemma_step_reconstruction(ScanMode::Normal, b);
                let passes = protocol_prefix().take(k).map_values(|x: u8| ScanToken::Pass(x));
                lemma_rebuild_pass_map(protocol_prefix().take(k));
                lemma_rebuild_concat(passes, scan_step(ScanMode::Normal, b).1);
            }
        },
        ScanMode::Body(buf) => {
            if b == terminator_byte() {
                lemma_rebuild_singleton(ScanToken::Cmd(buf));
            } else {
                assert(protocol_prefix() + buf.push(b) =~= (protocol_prefix() + buf) + seq![b]);
            }
        },
    }
}

/// Nothing is lost and nothing is invented: the bytes the scanner still
/// holds plus the whole input equal the bytes its output stands for plus
/// the bytes it still holds afterwards.  Every byte outside a complete
/// marker-to-`;` span is passed through in order, and every complete span
/// appears as exactly one command token in its stream position.
pub proof fn lemma_stream_reconstruction(st: ScanMode, s: Seq<u8>)
    requires
        wf_mode(st),
    ensures
        pending_bytes(st) + s =~= rebuild(scan(st, s).1) + pending_bytes(scan(st, s).0),
    decreases s.len(),
{
    if s.len() > 0 {
        let (st1, t1) = scan_step(st, s[0]);
        lemma_step_reconstruction(st, s[0]);
        lemma_step_wf(st, s[0]);
        lemma_stream_reconstruction(st1, s.drop_first());
        lemma_rebuild_concat(t1, scan(st1, s.drop_first()).1);
        assert(scan(st, s).1 =~= t1 + scan(st1, s.drop_first()).1);
        assert(rebuild(scan(st, s).1) =~= rebuild(t1) + rebuild(scan(st1, s.drop_first()).1));
        assert(pending_bytes(st) + s =~= (pending_bytes(st) + seq![s[0]]) + s.drop_first());
        assert((rebuild(t1) + pending_bytes(st1)) + s.drop_first() =~= rebuild(t1) + (
        pending_bytes(st1) + s.drop_first()));
    }
}

/// Whether the full 48-byte marker occurs anywhere in `s`.
pub open spec fn contains_protocol_prefix(s: Seq<u8>) -> bool {
    exists|i: int| 0 <= i && i + 48 <= s.len() && #[trigger] s.subrange(i, i + 48) == protocol_prefix()
}

/// Whether every token is a pass-through byte.
pub open spec fn all_pass(ts: Seq<ScanToken>) -> bool {
    forall|i: int| 0 <= i < ts.len() ==> ts[i] is Pass
}

/// The pass-through bytes of an output, in order.
pub open spec fn pass_bytes(ts: Seq<ScanToken>) -> Seq<u8>
    decreases ts.len(),
{
    if ts.len() == 0 {
        Seq::empty()
    } else {
        (match ts[0] {
            ScanToken::Pass(b) => seq![b],
            ScanToken::Cmd(_) => Seq::empty(),
        }) + pass_bytes(ts.drop_first())
    }
}

proof fn lemma_rebuild_all_pass(ts: Seq<ScanToken>)
    requires
        all_pass(ts),
    ensures
        pass_bytes(ts) =~= rebuild(ts),
    decreases ts.len(),
{
    if ts.len() > 0 {
        assert(ts[0] is Pass);
        lemma_rebuild_all_pass(ts.drop_first());
    }
}

/// Transparency: a stream in which the protocol marker never occurs, and
/// which does not end in the middle of a candidate marker, is passed
/// through byte for byte, and no command is emitted.
///
/// A stream that ends part way into a candidate marker (for instance with
/// a final lone SUB byte) is excluded: those bytes are still held back
/// until the next chunk decides whether they begin a real marker.
pub proof fn lemma_passthrough_transparency(s: Seq<u8>)
    requires
        !contains_protocol_prefix(s),
        scan(ScanMode::Normal, s).0 is Normal,
    ensures
        all_pass(scan(ScanMode::Normal, s).1),
        pass_bytes(scan(ScanMode::Normal, s).1) =~= s,
{
    let toks = scan(ScanMode::Normal, s).1;
    lemma_stream_reconstruction(ScanMode::Normal, s);
    assert(rebuild(toks) =~= s);
    if !all_pass(toks) {
        let i = choose|i: int| 0 <= i < toks.len() && !(toks[i] is Pass);
        assert(toks =~= toks.take(i) + seq![toks[i]] + toks.skip(i + 1));
        lemma_rebuild_concat(toks.take(i) + seq![toks[i]], toks.skip(i + 1));
        lemma_rebuild_concat(toks.take(i), seq![toks[i]]);
        let off = rebuild(toks.take(i)).len() as int;
        let body = toks[i]->Cmd_0;
        lemma_rebuild_singleton(toks[i]);
        assert forall|j: int| 0 <= j < 48 implies s[off + j] == prefix_byte(j) by {
            let full = protocol_prefix() + body + seq![terminator_byte()];
            assert(rebuild(toks)[off + j] == full[j]);
        }
        assert(s.subrange(off, off + 48) =~= protocol_prefix());
        assert(contains_protocol_prefix(s));
    }
    lemma_rebuild_all_pass(toks);
}

/// The concatenation of a sequence of chunks.
pub open spec fn concat_chunks(cs: Seq<Seq<u8>>) -> Seq<u8>
    decreases cs.len(),
{
    if cs.len() == 0 {
        Seq::empty()
    } else {
        cs[0] + concat_chunks(cs.drop_first())
    }
}

/// The scanner folded over a sequence of chunks.
pub open spec fn scan_chunks(st: ScanMode, cs: Seq<Seq<u8>>) -> (ScanMode, Seq<ScanToken>)
    decreases cs.len(),
{
    if cs.len() == 0 {
        (st, Seq::empty())
    } else {
        let (st1, t1) = scan(st, cs[0]);
        let (st2, t2) = scan_chunks(st1, cs.drop_first());
        (st2, t1 + t2)
    }
}

/// Resumability: however a stream is cut into chunks, feeding the chunks
/// one by one produces exactly the output, and leaves exactly the state,
/// of scanning the whole stream at once.
pub proof fn lemma_scanner_resumable(st: ScanMode, cs: Seq<Seq<u8>>)
    ensures
        scan_chunks(st, cs).0 == scan(st, concat_chunks(cs)).0,
        scan_chunks(st, cs).1 =~= scan(st, concat_chunks(cs)).1,
    decreases cs.len(),
{
    if cs.len() > 0 {
        let (st1, t1) = scan(st, cs[0]);
        lemma_scanner_resumable(st1, cs.drop_first());
        lemma_scan_concat(st, cs[0], concat_chunks(cs.drop_first()));
    }
}

/// Concrete scanner state, mirroring [`ScanMode`]; the body buffer lives
/// beside it so that completed bodies can be moved out.
#[derive(Clone, Copy)]
pub enum ScanState {
    Normal,
    MatchingPrefix(usize),
    ReadingBody,
}

/// One piece of scanner output: a pass-through span, or one command body.
pub enum ScanItem {
    Pass(Vec<u8>),
    Cmd(Vec<u8>),
}

/// The tokens that one output item stands for.
pub open spec fn item_tokens(it: ScanItem) -> Seq<ScanToken> {
    match it {
        ScanItem::Pass(v) => v@.map_values(|x: u8| ScanToken::Pass(x)),
        ScanItem::Cmd(v) => seq![ScanToken::Cmd(v@)],
    }
}

/// The tokens that a whole output stands for, in order.
pub open spec fn items_tokens(items: Seq<ScanItem>) -> Seq<ScanToken>
    decreases items.len(),
{
    if items.len() == 0 {
        Seq::empty()
    } else {
        item_tokens(items[0]) + items_tokens(items.drop_first())
    }
}

pub proof fn lemma_items_tokens_push(items: Seq<ScanItem>, it: ScanItem)
    ensures
        items_tokens(items.push(it)) =~= items_tokens(items) + item_tokens(it),
    decreases items.len(),
{
    if items.len() == 0 {
        assert(items =~= Seq::<ScanItem>::empty());
        assert(items.push(it)[0] == it);
        assert(items.push(it).drop_first() =~= Seq::<ScanItem>::empty());
        assert(items_tokens(Seq::<ScanItem>::empty()) =~= Seq::<ScanToken>::empty());
        assert(items_tokens(items.push(it)) =~= item_tokens(it));
    } else {
        assert(items.push(it)[0] == items[0]);
        assert(items.push(it).drop_first() =~= items.drop_first().push(it));
        lemma_items_tokens_push(items.drop_first(), it);
    }
}

/// The streaming scanner itself.
pub struct ProtocolScanner {
    state: ScanState,
    body: Vec<u8>,
}

impl View for ProtocolScanner {
    type V = ScanMode;

    closed spec fn view(&self) -> ScanMode {
        match self.state {
            ScanState::Normal => ScanMode::Normal,
            ScanState::MatchingPrefix(k) => ScanMode::Matching(k as int),
            ScanState::ReadingBody => ScanMode::Body(self.body@),
        }
    }
}

/// Byte `i` of the command marker, as executable code.
pub fn prefix_at(i: usize) -> (b: u8)
    requires
        i < 48,
    ensures
        b == prefix_byte(i as int),
{
    if i == 0 {
        0x1a
    } else if i == 1 {
        0x28
    } else if i == 2 {
        0x64
    } else if i == 3 {
        0x64
    } else if i == 4 {
        0x30
    } else if i == 5 {
        0x64
    } else if i == 6 {
        0x33
    } else if i == 7 {
        0x30
    } else if i == 8 {
        0x33
    } else if i == 9 {
        0x38
    } else if i == 10 {
        0x2d
    } else if i == 11 {
        0x31
    } else if i == 12 {
        0x64
    } else if i == 13 {
        0x34
    } else if i == 14 {
        0x33
    } else if i == 15 {
        0x2d
    } else if i == 16 {
        0x31
    } else if i == 17 {
        0x31
    } else if i == 18 {
        0x66
    } else if i == 19 {
        0x30
    } else if i == 20 {
        0x2d
    } else if i == 21 {
        0x39
    } else if i == 22 {
        0x37
    } else if i == 23 {
        0x36
    } else if i == 24 {
        0x31
    } else if i == 25 {
        0x2d
    } else if i == 26 {
        0x30
    } else if i == 27 {
        0x32
    } else if i == 28 {
        0x32
    } else if i == 29 {
        0x34
    } else if i == 30 {
        0x38
    } else if i == 31 {
        0x36
    } else if i == 32 {
        0x63
    } else if i == 33 {
        0x64
    } else if i == 34 {
        0x34
    } else if i == 35 {
        0x63
    } else if i == 36 {
        0x33
    } else if i == 37 {
        0x38
    } else if i == 38 {
        0x29
    } else if i == 39 {
        0x20
    } else if i == 40 {
        0x50
    } else if i == 41 {
        0x52
    } else if i == 42 {
        0x4f
    } else if i == 43 {
        0x44
    } else if i == 44 {
        0x4c
    } else if i == 45 {
        0x4f
    } else if i == 46 {
        0x47
    } else {
        0x3a
    }
}

/// The first `k` bytes of the command marker as a fresh vector.
pub(crate) fn prefix_head(k: usize) -> (v: Vec<u8>)
    requires
        k <= 48,
    ensures
        v@ =~= protocol_prefix().take(k as int),
{
    let mut v: Vec<u8> = Vec::new();
    let mut j: usize = 0;
    while j < k
        invariant
            0 <= j <= k <= 48,
            v@ =~= protocol_prefix().take(j as int),
        decreases k - j,
    {
        v.push(prefix_at(j));
        assert(protocol_prefix().take(j + 1) =~= protocol_prefix().take(j as int).push(
            prefix_byte(j as int),
        ));
        j += 1;
    }
    v
}

impl ProtocolScanner {
    /// The body buffer is only occupied while a body is being read, and a
    /// partial marker match never exceeds the marker.
    pub closed spec fn wf(&self) -> bool {
        wf_mode(self@) && (self.state is ReadingBody || self.body@.len() == 0)
    }

    pub fn new() -> (s: Self)
        ensures
            s.wf(),
            s@ == ScanMode::Normal,
    {
        ProtocolScanner { state: ScanState::Normal, body: Vec::new() }
    }

    /// Feed one chunk of child output.  The returned items are exactly the
    /// tokens of the abstract scan of this chunk from the previous state,
    /// with consecutive pass-through bytes grouped into spans.
    pub fn process(&mut self, chunk: &[u8]) -> (out: Vec<ScanItem>)
        requires
            old(self).wf(),
        ensures
            final(self).wf(),
            final(self)@ == scan(old(self)@, chunk@).0,
            items_tokens(out@) =~= scan(old(self)@, chunk@).1,
    {
        let ghost st0 = old(self)@;
        let mut out: Vec<ScanItem> = Vec::new();
        let mut cur: Vec<u8> = Vec::new();
        let mut i: usize = 0;
        let n = chunk.len();
        while i < n
            invariant
                0 <= i <= n,
                n == chunk@.len(),
                self.wf(),
                cur@.len() > 0 ==> self.state is Normal,
                self@ == scan(st0, chunk@.take(i as int)).0,
                items_tokens(out@) + cur@.map_values(|x: u8| ScanToken::Pass(x)) =~= scan(
                    st0,
                    chunk@.take(i as int),
                ).1,
            decreases n - i,
        {
            let b = chunk[i];
            let ghost st_pre = self@;
            proof {
                lemma_scan_snoc(st0, chunk@.take(i as int), b);
                assert(chunk@.take(i + 1) =~= chunk@.take(i as int).push(b));
                lemma_scan_step_cases(st_pre, b);
            }
            match self.state {
                ScanState::Normal => {
                    if b == prefix_at(0) {
                        if cur.len() > 0 {
                            proof {
                                lemma_items_tokens_push(out@, ScanItem::Pass(cur));
                            }
                            out.push(ScanItem::Pass(cur));
                            cur = Vec::new();
                        }
                        self.state = ScanState::MatchingPrefix(1);
                        assert(self@ == scan_step(st_pre, b).0);
                    } else {
                        cur.push(b);
                        assert(self@ == scan_step(st_pre, b).0);
                        assert(cur@.map_values(|x: u8| ScanToken::Pass(x)) =~= cur@.drop_last()
                            .map_values(|x: u8| ScanToken::Pass(x)).push(ScanToken::Pass(b)));
                    }
                },
                ScanState::MatchingPrefix(k) => {
                    assert(cur@.len() == 0);
                    if b == prefix_at(k) {
                        if k + 1 == 48 {
                            self.state = ScanState::ReadingBody;
                            assert(self.body@ =~= Seq::<u8>::empty());
                            assert(self@ == scan_step(st_pre, b).0);
                        } else {
                            self.state = ScanState::MatchingPrefix(k + 1);
                            assert(self@ == scan_step(st_pre, b).0);
                        }
                    } else {
                        let flushed = prefix_head(k);
                        proof {
                            lemma_items_tokens_push(out@, ScanItem::Pass(flushed));
                        }
                        out.push(ScanItem::Pass(flushed));
                        if b == prefix_at(0) {
                            self.state = ScanState::MatchingPrefix(1);
                        } else {
                            self.state = ScanState::Normal;
                            cur.push(b);
                        }
                        assert(self@ == scan_step(st_pre, b).0);
                    }
                },
                ScanState::ReadingBody => {
                    if b == 0x3b {
                        let mut body: Vec<u8> = Vec::new();
                        core::mem::swap(&mut body, &mut self.body);
                        proof {
                            lemma_items_tokens_push(out@, ScanItem::Cmd(body));
                        }
                        out.push(ScanItem::Cmd(body));
                        self.state = ScanState::Normal;
                        assert(self@ == scan_step(st_pre, b).0);
                    } else {
                        self.body.push(b);
                        assert(self@ == scan_step(st_pre, b).0);
                    }
                },
            }
            i += 1;
        }
        proof {
            assert(chunk@.take(n as int) =~= chunk@);
        }
        if cur.len() > 0 {
            proof {
                lemma_items_tokens_push(out@, ScanItem::Pass(cur));
            }
            out.push(ScanItem::Pass(cur));
        }
        out
    }
}

} // verus!
