//! Parsing of completed command bodies into protocol events.
//!
//! A body is `VERB[:ARG[:ARG…]]`; each argument is standard base64 (an
//! argument that does not decode is kept as its raw bytes, as the wire
//! format never produces that).  Unknown verbs are reported as such so the
//! caller can replay the whole sequence verbatim.
use vstd::prelude::*;
use vstd::string::*;
use vstd::slice::slice_to_vec;

use crate::trusted;
use crate::trusted::{b64_decode_of, utf8_lossy_of};

verus! {

/// One event parsed from a complete command sequence.
pub enum ProtocolEvent {
    StatusCheck,
    Heartbeat { version: String },
    RunStart { host: String, cwd: String, raw_cmd: String, message: String, remote_user: String },
    RunStop { exit_code: i32 },
    EditStart {
        host: String,
        cwd: String,
        raw_cmd: String,
        message: String,
        remote_user: String,
        filename: String,
        original: Vec<u8>,
    },
    EditStop { exit_code: i32, edited: Vec<u8> },
    TaskCreate { name: String },
    TaskList,
    TaskSetActive { task_id: i64 },
    TaskUnsetActive,
}

/// The mathematical value of a protocol event.
pub enum EventModel {
    StatusCheck,
    Heartbeat { version: Seq<char> },
    RunStart {
        host: Seq<char>,
        cwd: Seq<char>,
        raw_cmd: Seq<char>,
        message: Seq<char>,
        remote_user: Seq<char>,
    },
    RunStop { exit_code: int },
    EditStart {
        host: Seq<char>,
        cwd: Seq<char>,
        raw_cmd: Seq<char>,
        message: Seq<char>,
        remote_user: Seq<char>,
        filename: Seq<char>,
        original: Seq<u8>,
    },
    EditStop { exit_code: int, edited: Seq<u8> },
    TaskCreate { name: Seq<char> },
    TaskList,
    TaskSetActive { task_id: int },
    TaskUnsetActive,
}

impl View for ProtocolEvent {
    type V = EventModel;

    open spec fn view(&self) -> EventModel {
        match self {
            ProtocolEvent::StatusCheck => EventModel::StatusCheck,
            ProtocolEvent::Heartbeat { version } => EventModel::Heartbeat { version: version@ },
            ProtocolEvent::RunStart { host, cwd, raw_cmd, message, remote_user } => {
                EventModel::RunStart {
                    host: host@,
                    cwd: cwd@,
                    raw_cmd: raw_cmd@,
                    message: message@,
                    remote_user: remote_user@,
                }
            },
            ProtocolEvent::RunStop { exit_code } => {
                EventModel::RunStop { exit_code: *exit_code as int }
            },
            ProtocolEvent::EditStart {
                host,
                cwd,
                raw_cmd,
                message,
                remote_user,
                filename,
                original,
            } => {
                EventModel::EditStart {
                    host: host@,
                    cwd: cwd@,
                    raw_cmd: raw_cmd@,
                    message: message@,
                    remote_user: remote_user@,
                    filename: filename@,
                    original: original@,
                }
            },
            ProtocolEvent::EditStop { exit_code, edited } => {
                EventModel::EditStop { exit_code: *exit_code as int, edited: edited@ }
            },
            ProtocolEvent::TaskCreate { name } => EventModel::TaskCreate { name: name@ },
            ProtocolEvent::TaskList => EventModel::TaskList,
            ProtocolEvent::TaskSetActive { task_id } => {
                EventModel::TaskSetActive { task_id: *task_id as int }
            },
            ProtocolEvent::TaskUnsetActive => EventModel::TaskUnsetActive,
        }
    }
}

/// What a command body parses to: a known event, a known verb whose
/// arguments are missing or malformed (the sequence is dropped with a
/// warning), or an unknown verb (the sequence is replayed verbatim).
pub enum ParsedCommand {
    Event(ProtocolEvent),
    MissingArgs,
    Unknown,
}

/// The mathematical value of a parse result.
pub enum ParsedModel {
    Event(EventModel),
    MissingArgs,
    Unknown,
}

impl View for ParsedCommand {
    type V = ParsedModel;

    open spec fn view(&self) -> ParsedModel {
        match self {
            ParsedCommand::Event(e) => ParsedModel::Event(e@),
            ParsedCommand::MissingArgs => ParsedModel::MissingArgs,
            ParsedCommand::Unknown => ParsedModel::Unknown,
        }
    }
}

/// The argument separator `:`.
pub open spec fn colon_byte() -> u8 {
    0x3a
}

/// Index of the first `:` in `s`, or -1 if there is none.
pub open spec fn first_colon(s: Seq<u8>) -> int
    decreases s.len(),
{
    if s.len() == 0 {
        -1
    } else if s[0] == colon_byte() {
        0
    } else {
        let r = first_colon(s.drop_first());
        if r == -1 {
            -1
        } else {
            r + 1
        }
    }
}

proof fn lemma_first_colon_at(s: Seq<u8>, i: int)
    requires
        0 <= i < s.len(),
        s[i] == colon_byte(),
        forall|j: int| 0 <= j < i ==> s[j] != colon_byte(),
    ensures
        first_colon(s) == i,
    decreases s.len(),
{
    if i > 0 {
        assert forall|j: int| 0 <= j < i - 1 implies s.drop_first()[j] != colon_byte() by {
            assert(s.drop_first()[j] == s[j + 1]);
        }
        assert(s.drop_first()[i - 1] == s[i]);
        lemma_first_colon_at(s.drop_first(), i - 1);
    }
}

proof fn lemma_first_colon_none(s: Seq<u8>)
    requires
        forall|j: int| 0 <= j < s.len() ==> s[j] != colon_byte(),
    ensures
        first_colon(s) == -1,
    decreases s.len(),
{
    if s.len() > 0 {
        assert forall|j: int| 0 <= j < s.drop_first().len() implies s.drop_first()[j]
            != colon_byte() by {
            assert(s.drop_first()[j] == s[j + 1]);
        }
        lemma_first_colon_none(s.drop_first());
    }
}

proof fn lemma_first_colon_bounds(s: Seq<u8>)
    ensures
        first_colon(s) == -1 || (0 <= first_colon(s) < s.len()),
    decreases s.len(),
{
    if s.len() > 0 && s[0] != colon_byte() {
        lemma_first_colon_bounds(s.drop_first());
    }
}

/// The `:`-separated pieces of a byte string (an empty string is one
/// empty piece, and a trailing `:` yields a trailing empty piece).
pub open spec fn split_colons(s: Seq<u8>) -> Seq<Seq<u8>>
    decreases s.len(),
    via split_colons_decreases
{
    let d = first_colon(s);
    if d == -1 {
        seq![s]
    } else {
        seq![s.take(d)] + split_colons(s.skip(d + 1))
    }
}

#[via_fn]
proof fn split_colons_decreases(s: Seq<u8>) {
    lemma_first_colon_bounds(s);
}

/// The verb of a body: everything before the first `:`, or the whole body.
pub open spec fn verb_of(body: Seq<u8>) -> Seq<u8> {
    if first_colon(body) == -1 {
        body
    } else {
        body.take(first_colon(body))
    }
}

/// The raw (still encoded) arguments of a body.
pub open spec fn raw_args_of(body: Seq<u8>) -> Seq<Seq<u8>> {
    if first_colon(body) == -1 {
        Seq::empty()
    } else {
        let rest = body.skip(first_colon(body) + 1);
        if rest.len() == 0 {
            Seq::empty()
        } else {
            split_colons(rest)
        }
    }
}

/// One decoded argument: its base64 decoding, or the raw bytes where they
/// are not well-formed base64.
pub open spec fn arg_bytes(raw: Seq<u8>) -> Seq<u8> {
    match b64_decode_of(raw) {
        Some(v) => v,
        None => raw,
    }
}

/// One decoded argument read as text.
pub open spec fn arg_chars(raw: Seq<u8>) -> Seq<char> {
    utf8_lossy_of(arg_bytes(raw))
}

pub open spec fn is_digit_byte(b: u8) -> bool {
    0x30 <= b <= 0x39
}

/// The value of a digit string, most significant digit first.
pub open spec fn digits_val(s: Seq<u8>) -> int
    decreases s.len(),
{
    if s.len() == 0 {
        0
    } else {
        digits_val(s.drop_last()) * 10 + (s.last() - 0x30)
    }
}

pub open spec fn all_digits(s: Seq<u8>) -> bool {
    s.len() > 0 && forall|i: int| 0 <= i < s.len() ==> is_digit_byte(#[trigger] s[i])
}

/// The digits of a literal, after any leading sign.
pub open spec fn sign_split(s: Seq<u8>) -> Seq<u8> {
    if s.len() > 0 && (s[0] == 0x2b || s[0] == 0x2d) {
        s.drop_first()
    } else {
        s
    }
}

pub open spec fn has_minus(s: Seq<u8>) -> bool {
    s.len() > 0 && s[0] == 0x2d
}

/// What a decimal integer literal parses to: an optional sign, then at
/// least one digit, within the signed 64-bit range.
pub open spec fn parse_i64_of(s: Seq<u8>) -> Option<int> {
    if !all_digits(sign_split(s)) {
        None
    } else {
        let v = if has_minus(s) {
            -digits_val(sign_split(s))
        } else {
            digits_val(sign_split(s))
        };
        if i64::MIN <= v <= i64::MAX {
            Some(v)
        } else {
            None
        }
    }
}

proof fn lemma_digits_val_push(s: Seq<u8>, b: u8)
    ensures
        digits_val(s.push(b)) == digits_val(s) * 10 + (b - 0x30),
{
    assert(s.push(b).drop_last() =~= s);
    assert(s.push(b).last() == b);
}

proof fn lemma_digits_val_nonneg(s: Seq<u8>)
    requires
        forall|i: int| 0 <= i < s.len() ==> is_digit_byte(#[trigger] s[i]),
    ensures
        digits_val(s) >= 0,
    decreases s.len(),
{
    if s.len() > 0 {
        lemma_digits_val_nonneg(s.drop_last());
    }
}

/// Parse a decimal integer: an optional `+` or `-` sign, then at least one
/// digit, rejecting anything else and anything outside the `i64` range.
pub fn parse_i64(s: &[u8]) -> (r: Option<i64>)
    ensures
        match r {
            Some(v) => parse_i64_of(s@) == Some(v as int),
            None => parse_i64_of(s@) is None,
        },
{
    let n = s.len();
    let start: usize = if n > 0 && (s[0] == 0x2b || s[0] == 0x2d) {
        1
    } else {
        0
    };
    let neg = n > 0 && s[0] == 0x2d;
    let ghost ds = sign_split(s@);
    if start == n {
        assert(!all_digits(ds));
        assert(parse_i64_of(s@) is None);
        return None;
    }
    let mut acc: i128 = 0;
    let mut too_big = false;
    let mut i = start;
    while i < n
        invariant
            start <= i <= n,
            n == s@.len(),
            start == 0 || start == 1,
            ds == sign_split(s@),
            start == 1 <==> (s@.len() > 0 && (s@[0] == 0x2b || s@[0] == 0x2d)),
            neg == has_minus(s@),
            ds.len() == n - start,
            forall|j: int| 0 <= j < i - start ==> is_digit_byte(#[trigger] ds[j]),
            !too_big ==> acc == digits_val(ds.take(i - start)) && 0 <= acc
                <= 9223372036854775808i128,
            too_big ==> digits_val(ds.take(i - start)) > 9223372036854775808,
        decreases n - i,
    {
        let b = s[i];
        proof {
            assert(ds[i - start] == s@[i as int]);
        }
        if b < 0x30 || b > 0x39 {
            assert(!is_digit_byte(ds[i - start]));
            assert(!all_digits(ds));
            assert(parse_i64_of(s@) is None);
            return None;
        }
        proof {
            assert(ds.take(i + 1 - start) =~= ds.take(i - start).push(ds[i - start]));
            lemma_digits_val_push(ds.take(i - start), b);
            lemma_digits_val_nonneg(ds.take(i - start));
        }
        if !too_big {
            let next: i128 = acc * 10 + ((b - 0x30) as i128);
            if next > 9223372036854775808i128 {
                too_big = true;
            } else {
                acc = next;
            }
        }
        i += 1;
    }
    proof {
        assert(ds.take(n - start) =~= ds);
        assert(all_digits(ds));
    }
    if too_big {
        proof {
            if neg {
                assert(-digits_val(ds) < i64::MIN);
            } else {
                assert(digits_val(ds) > i64::MAX);
            }
            assert(parse_i64_of(s@) is None);
        }
        return None;
    }
    if neg {
        if acc == 9223372036854775808i128 {
            Some(i64::MIN)
        } else {
            Some(-(acc as i64))
        }
    } else {
        if acc == 9223372036854775808i128 {
            assert(digits_val(ds) > i64::MAX);
            assert(parse_i64_of(s@) is None);
            None
        } else {
            Some(acc as i64)
        }
    }
}

/// The exit code carried by a stop command: the first argument parsed as a
/// 32-bit integer, with the sentinel 1000 where the argument is missing or
/// does not parse.
pub open spec fn exit_code_of(args: Seq<Seq<u8>>) -> int {
    if args.len() == 0 {
        1000
    } else {
        match parse_i64_of(arg_bytes(args[0])) {
            Some(v) => if i32::MIN <= v <= i32::MAX {
                v
            } else {
                1000
            },
            None => 1000,
        }
    }
}

pub open spec fn spec_verb_inactive() -> Seq<u8> {
    "IS CURRENTLY INACTIVE".spec_bytes()
}

pub open spec fn spec_verb_running() -> Seq<u8> {
    "PRODLOG, ARE YOU RUNNING?".spec_bytes()
}

pub open spec fn spec_verb_start_run() -> Seq<u8> {
    "START CAPTURE RUN".spec_bytes()
}

pub open spec fn spec_verb_stop_run() -> Seq<u8> {
    "STOP CAPTURE RUN".spec_bytes()
}

pub open spec fn spec_verb_start_edit() -> Seq<u8> {
    "START CAPTURE EDIT".spec_bytes()
}

pub open spec fn spec_verb_stop_edit() -> Seq<u8> {
    "STOP CAPTURE EDIT".spec_bytes()
}

pub open spec fn spec_verb_task_new() -> Seq<u8> {
    "TASK START NEW".spec_bytes()
}

pub open spec fn spec_verb_task_list() -> Seq<u8> {
    "TASK LIST".spec_bytes()
}

pub open spec fn spec_verb_task_set() -> Seq<u8> {
    "TASK SET ACTIVE".spec_bytes()
}

pub open spec fn spec_verb_task_unset() -> Seq<u8> {
    "TASK UNSET ACTIVE".spec_bytes()
}

/// What a complete command body means.
pub open spec fn parse_cmd(body: Seq<u8>) -> ParsedModel {
    let verb = verb_of(body);
    let args = raw_args_of(body);
    if verb == spec_verb_inactive() {
        ParsedModel::Event(EventModel::StatusCheck)
    } else if verb == spec_verb_running() {
        if args.len() >= 1 {
            ParsedModel::Event(EventModel::Heartbeat { version: arg_chars(args[0]) })
        } else {
            ParsedModel::MissingArgs
        }
    } else if verb == spec_verb_start_run() {
        if args.len() >= 5 {
            ParsedModel::Event(
                EventModel::RunStart {
                    host: arg_chars(args[0]),
                    cwd: arg_chars(args[1]),
                    raw_cmd: arg_chars(args[2]),
                    message: arg_chars(args[3]),
                    remote_user: arg_chars(args[4]),
                },
            )
        } else {
            ParsedModel::MissingArgs
        }
    } else if verb == spec_verb_stop_run() {
        ParsedModel::Event(EventModel::RunStop { exit_code: exit_code_of(args) })
    } else if verb == spec_verb_start_edit() {
        if args.len() >= 7 && arg_chars(args[5]).len() > 0 {
            ParsedModel::Event(
                EventModel::EditStart {
                    host: arg_chars(args[0]),
                    cwd: arg_chars(args[1]),
                    raw_cmd: arg_chars(args[2]),
                    message: arg_chars(args[3]),
                    remote_user: arg_chars(args[4]),
                    filename: arg_chars(args[5]),
                    original: arg_bytes(args[6]),
                },
            )
        } else {
            ParsedModel::MissingArgs
        }
    } else if verb == spec_verb_stop_edit() {
        ParsedModel::Event(
            EventModel::EditStop {
                exit_code: exit_code_of(args),
                edited: if args.len() >= 2 {
                    arg_bytes(args[1])
                } else {
                    Seq::empty()
                },
            },
        )
    } else if verb == spec_verb_task_new() {
        if args.len() >= 1 {
            ParsedModel::Event(EventModel::TaskCreate { name: arg_chars(args[0]) })
        } else {
            ParsedModel::MissingArgs
        }
    } else if verb == spec_verb_task_list() {
        ParsedModel::Event(EventModel::TaskList)
    } else if verb == spec_verb_task_set() {
        if args.len() >= 1 {
            match parse_i64_of(arg_bytes(args[0])) {
                Some(id) => ParsedModel::Event(EventModel::TaskSetActive { task_id: id }),
                None => ParsedModel::MissingArgs,
            }
        } else {
            ParsedModel::MissingArgs
        }
    } else if verb == spec_verb_task_unset() {
        ParsedModel::Event(EventModel::TaskUnsetActive)
    } else {
        ParsedModel::Unknown
    }
}

/// True when the two byte strings are equal.
fn bytes_eq(a: &[u8], b: &[u8]) -> (r: bool)
    ensures
        r == (a@ == b@),
{
    if a.len() != b.len() {
        assert(a@.len() != b@.len());
        return false;
    }
    let n = a.len();
    let mut i: usize = 0;
    while i < n
        invariant
            0 <= i <= n,
            n == a@.len() == b@.len(),
            forall|j: int| 0 <= j < i ==> a@[j] == b@[j],
        decreases n - i,
    {
        if a[i] != b[i] {
            return false;
        }
        i += 1;
    }
    assert(a@ =~= b@);
    true
}

/// Index of the first `:` at or after `from`, or the length when none.
fn scan_colon(s: &[u8], from: usize) -> (r: usize)
    requires
        from <= s@.len(),
    ensures
        from <= r <= s@.len(),
        r < s@.len() ==> s@[r as int] == colon_byte(),
        forall|j: int| from <= j < r ==> s@[j] != colon_byte(),
{
    let n = s.len();
    let mut i = from;
    while i < n
        invariant
            from <= i <= n,
            n == s@.len(),
            forall|j: int| from <= j < i ==> s@[j] != colon_byte(),
        decreases n - i,
    {
        if s[i] == 0x3a {
            return i;
        }
        i += 1;
    }
    i
}

pub open spec fn vecs_view(v: Seq<Vec<u8>>) -> Seq<Seq<u8>> {
    v.map_values(|x: Vec<u8>| x@)
}

proof fn lemma_split_colons_cut(s: Seq<u8>, d: int)
    requires
        0 <= d <= s.len(),
        d < s.len() ==> s[d] == colon_byte(),
        forall|j: int| 0 <= j < d ==> s[j] != colon_byte(),
    ensures
        d < s.len() ==> split_colons(s) =~= seq![s.take(d)] + split_colons(s.skip(d + 1)),
        d == s.len() ==> split_colons(s) =~= seq![s],
{
    if d < s.len() {
        lemma_first_colon_at(s, d);
    } else {
        lemma_first_colon_none(s);
    }
}

/// Split a byte string on `:`.
fn split_args(rest: &[u8]) -> (out: Vec<Vec<u8>>)
    ensures
        vecs_view(out@) =~= split_colons(rest@),
{
    let n = rest.len();
    let mut out: Vec<Vec<u8>> = Vec::new();
    let mut pos: usize = 0;
    proof {
        assert(rest@.skip(0) =~= rest@);
    }
    loop
        invariant
            0 <= pos <= n,
            n == rest@.len(),
            split_colons(rest@) =~= vecs_view(out@) + split_colons(rest@.skip(pos as int)),
        decreases n - pos,
    {
        let e = scan_colon(rest, pos);
        proof {
            assert forall|j: int| 0 <= j < e - pos implies rest@.skip(pos as int)[j]
                != colon_byte() by {
                assert(rest@.skip(pos as int)[j] == rest@[pos + j]);
            }
            if e < n {
                assert(rest@.skip(pos as int)[e - pos] == rest@[e as int]);
            }
            lemma_split_colons_cut(rest@.skip(pos as int), e - pos);
            assert(rest@.skip(pos as int).take(e - pos) =~= rest@.subrange(pos as int, e as int));
            if e < n {
                assert(rest@.skip(pos as int).skip(e - pos + 1) =~= rest@.skip(e + 1));
            }
        }
        let piece = slice_to_vec(slice_range(rest, pos, e));
        proof {
            lemma_vecs_view_push(out@, piece);
        }
        out.push(piece);
        if e == n {
            return out;
        }
        pos = e + 1;
    }
}

proof fn lemma_vecs_view_push(v: Seq<Vec<u8>>, x: Vec<u8>)
    ensures
        vecs_view(v.push(x)) =~= vecs_view(v).push(x@),
{
}

/// The bytes `s[from..to)` as a slice.
fn slice_range<'a>(s: &'a [u8], from: usize, to: usize) -> (r: &'a [u8])
    requires
        from <= to <= s@.len(),
    ensures
        r@ == s@.subrange(from as int, to as int),
{
    &s[from..to]
}

fn arg_to_bytes(raw: &Vec<u8>) -> (r: Vec<u8>)
    ensures
        r@ == arg_bytes(raw@),
{
    match trusted::base64_decode_bytes(raw.as_slice()) {
        Some(v) => v,
        None => raw.clone(),
    }
}

fn arg_to_string(raw: &Vec<u8>) -> (r: String)
    ensures
        r@ == arg_chars(raw@),
{
    let b = arg_to_bytes(raw);
    trusted::utf8_lossy(b.as_slice())
}

fn exit_code_arg(args: &Vec<Vec<u8>>) -> (r: i32)
    ensures
        r as int == exit_code_of(vecs_view(args@)),
{
    if args.len() == 0 {
        return 1000;
    }
    let b = arg_to_bytes(&args[0]);
    proof {
        assert(vecs_view(args@)[0] == args@[0]@);
    }
    match parse_i64(b.as_slice()) {
        Some(v) => {
            if v >= i32::MIN as i64 && v <= i32::MAX as i64 {
                v as i32
            } else {
                1000
            }
        },
        None => 1000,
    }
}

/// Parse one complete command body.
pub fn parse_command(body: &[u8]) -> (r: ParsedCommand)
    ensures
        r@ == parse_cmd(body@),
{
    let n = body.len();
    let d = scan_colon(body, 0);
    proof {
        if d < n {
            lemma_first_colon_at(body@, d as int);
        } else {
            lemma_first_colon_none(body@);
        }
    }
    let verb: &[u8] = slice_range(body, 0, d);
    proof {
        assert(verb@ =~= verb_of(body@));
    }
    let args: Vec<Vec<u8>> = if d == n {
        Vec::new()
    } else {
        let rest = slice_range(body, d + 1, n);
        if rest.len() == 0 {
            Vec::new()
        } else {
            split_args(rest)
        }
    };
    proof {
        assert(vecs_view(args@) =~= raw_args_of(body@));
    }
    if bytes_eq(verb, "IS CURRENTLY INACTIVE".as_bytes()) {
        ParsedCommand::Event(ProtocolEvent::StatusCheck)
    } else if bytes_eq(verb, "PRODLOG, ARE YOU RUNNING?".as_bytes()) {
        if args.len() >= 1 {
            ParsedCommand::Event(ProtocolEvent::Heartbeat { version: arg_to_string(&args[0]) })
        } else {
            ParsedCommand::MissingArgs
        }
    } else if bytes_eq(verb, "START CAPTURE RUN".as_bytes()) {
        if args.len() >= 5 {
            ParsedCommand::Event(
                ProtocolEvent::RunStart {
                    host: arg_to_string(&args[0]),
                    cwd: arg_to_string(&args[1]),
                    raw_cmd: arg_to_string(&args[2]),
                    message: arg_to_string(&args[3]),
                    remote_user: arg_to_string(&args[4]),
                },
            )
        } else {
            ParsedCommand::MissingArgs
        }
    } else if bytes_eq(verb, "STOP CAPTURE RUN".as_bytes()) {
        ParsedCommand::Event(ProtocolEvent::RunStop { exit_code: exit_code_arg(&args) })
    } else if bytes_eq(verb, "START CAPTURE EDIT".as_bytes()) {
        if args.len() >= 7 {
            // an edit capture without a file name is malformed: every
            // stored edit row carries a non-empty filename
            let filename = arg_to_string(&args[5]);
            if filename.as_str().is_empty() {
                ParsedCommand::MissingArgs
            } else {
                ParsedCommand::Event(
                    ProtocolEvent::EditStart {
                        host: arg_to_string(&args[0]),
                        cwd: arg_to_string(&args[1]),
                        raw_cmd: arg_to_string(&args[2]),
                        message: arg_to_string(&args[3]),
                        remote_user: arg_to_string(&args[4]),
                        filename,
                        original: arg_to_bytes(&args[6]),
                    },
                )
            }
        } else {
            ParsedCommand::MissingArgs
        }
    } else if bytes_eq(verb, "STOP CAPTURE EDIT".as_bytes()) {
        let edited = if args.len() >= 2 {
            arg_to_bytes(&args[1])
        } else {
            Vec::new()
        };
        ParsedCommand::Event(ProtocolEvent::EditStop { exit_code: exit_code_arg(&args), edited })
    } else if bytes_eq(verb, "TASK START NEW".as_bytes()) {
        if args.len() >= 1 {
            ParsedCommand::Event(ProtocolEvent::TaskCreate { name: arg_to_string(&args[0]) })
        } else {
            ParsedCommand::MissingArgs
        }
    } else if bytes_eq(verb, "TASK LIST".as_bytes()) {
        ParsedCommand::Event(ProtocolEvent::TaskList)
    } else if bytes_eq(verb, "TASK SET ACTIVE".as_bytes()) {
        if args.len() >= 1 {
            let b = arg_to_bytes(&args[0]);
            match parse_i64(b.as_slice()) {
                Some(id) => ParsedCommand::Event(ProtocolEvent::TaskSetActive { task_id: id }),
                None => ParsedCommand::MissingArgs,
            }
        } else {
            ParsedCommand::MissingArgs
        }
    } else if bytes_eq(verb, "TASK UNSET ACTIVE".as_bytes()) {
        ParsedCommand::Event(ProtocolEvent::TaskUnsetActive)
    } else {
        ParsedCommand::Unknown
    }
}

} // verus!
