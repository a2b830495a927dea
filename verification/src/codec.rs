//! The message framing codec: incrementally parses the network-to-terminal
//! byte stream into control messages (terminal data length, resize geometry)
//! and leaves raw payload bytes in place for direct forwarding.
//!
//! A message begins with one ASCII digit tag byte and a one-byte separator.
//! Tag `0` (DATA) is followed by a decimal payload length terminated by `:`;
//! tag `1` (RESIZE) by two `:`-terminated decimal numbers (columns, rows);
//! any other tag byte is skipped for resynchronization. The separator byte
//! after the tag is consumed permissively, not validated. Nothing is consumed
//! from the buffer until a decision is final, so parsing does not depend on
//! how the stream was cut into chunks.
use vstd::prelude::*;

use crate::buffer::ByteQueue;
use crate::num::{is_decimal, is_ascii_digit, digits_val, parse_decimal};

verus! {

/// ASCII `'0'`: the DATA tag.
pub const TAG_DATA: u8 = 48;
/// ASCII `'1'`: the RESIZE tag.
pub const TAG_RESIZE: u8 = 49;
/// ASCII `':'`: the number-field terminator.
pub const COLON: u8 = 58;
/// A number field with no terminator within this many bytes is cut short.
pub const FIELD_LIMIT: usize = 20;

/// A parsed control message.
#[derive(Debug, Clone, Copy, PartialEq, Eq, Structural)]
pub enum Message {
    /// The next `len` raw bytes of the stream are terminal input to forward
    /// verbatim.
    Data(usize),
    /// Set the terminal geometry to `cols` columns by `rows` rows; fully
    /// self-contained, no trailing payload.
    Resize(u16, u16),
}

/// What one call of [`process_queue`] produced.
#[derive(Debug, Clone, Copy, PartialEq, Eq, Structural)]
pub enum QueueStep {
    /// No complete message remains; the held bytes wait for more input.
    Pending,
    /// A malformed number field ended this pass; the remaining bytes are
    /// still pending and a further call resumes after the bad field.
    Halted,
    /// A complete message was extracted.
    Parsed(Message),
}

/// First index at or after `from` holding the field terminator `:`.
pub open spec fn find_colon(s: Seq<u8>, from: int) -> Option<int>
    decreases s.len() - from,
{
    if from < 0 || from >= s.len() {
        None
    } else if s[from] == COLON {
        Some(from)
    } else {
        find_colon(s, from + 1)
    }
}

/// The decision the number scanner takes on the field starting at `from`.
pub enum NumScan {
    /// No terminator yet and the field is still short: wait for more bytes.
    Incomplete,
    /// No terminator within [`FIELD_LIMIT`] bytes: discard [`FIELD_LIMIT`]
    /// bytes from the front of the buffer and rescan.
    Guard,
    /// Terminator found but the token is not a decimal number that fits in
    /// `usize`; `end` is the index just past the terminator.
    Bad(int),
    /// A valid number `v`; `end` is the index just past the terminator.
    Val(nat, int),
}

pub open spec fn scan_number(s: Seq<u8>, from: int) -> NumScan {
    match find_colon(s, from) {
        Some(p) => {
            let tok = s.subrange(from, p);
            if is_decimal(tok) && digits_val(tok) <= usize::MAX {
                NumScan::Val(digits_val(tok), p + 1)
            } else {
                NumScan::Bad(p + 1)
            }
        },
        None => {
            if s.len() - from > FIELD_LIMIT {
                NumScan::Guard
            } else {
                NumScan::Incomplete
            }
        },
    }
}

/// One parsing decision on the buffer contents `s`.
pub enum SpecStep {
    /// Nothing is consumed; more input is needed.
    NeedMore,
    /// `k` bytes are consumed (a one-byte resynchronization skip, or a
    /// [`FIELD_LIMIT`]-byte discard of an unterminated number field) and
    /// scanning resumes.
    Skip(int),
    /// `k` bytes through a malformed number field are consumed and the pass
    /// halts.
    Bad(int),
    /// A complete message; `k` bytes are consumed.
    Msg(Message, int),
}

pub open spec fn spec_step(s: Seq<u8>) -> SpecStep {
    if s.len() < 2 {
        SpecStep::NeedMore
    } else if s[0] == TAG_DATA {
        match scan_number(s, 2) {
            NumScan::Val(v, end) => SpecStep::Msg(Message::Data(v as usize), end),
            NumScan::Bad(end) => SpecStep::Bad(end),
            NumScan::Guard => SpecStep::Skip(FIELD_LIMIT as int),
            NumScan::Incomplete => SpecStep::NeedMore,
        }
    } else if s[0] == TAG_RESIZE {
        match scan_number(s, 2) {
            NumScan::Val(c, end1) => match scan_number(s, end1) {
                NumScan::Val(r, end2) => SpecStep::Msg(
                    Message::Resize((c % 0x10000) as u16, (r % 0x10000) as u16),
                    end2,
                ),
                NumScan::Bad(end2) => SpecStep::Bad(end2),
                NumScan::Guard => SpecStep::Skip(FIELD_LIMIT as int),
                NumScan::Incomplete => SpecStep::NeedMore,
            },
            NumScan::Bad(end1) => SpecStep::Bad(end1),
            NumScan::Guard => SpecStep::Skip(FIELD_LIMIT as int),
            NumScan::Incomplete => SpecStep::NeedMore,
        }
    } else {
        SpecStep::Skip(1)
    }
}

/// Runs parsing decisions until a message, a malformed field, or the need
/// for more input stops the pass; yields the outcome and the bytes left.
pub open spec fn spec_drain(s: Seq<u8>) -> (QueueStep, Seq<u8>)
    decreases s.len(),
{
    match spec_step(s) {
        SpecStep::NeedMore => (QueueStep::Pending, s),
        SpecStep::Skip(k) => if 1 <= k <= s.len() {
            spec_drain(s.skip(k))
        } else {
            (QueueStep::Pending, s)
        },
        SpecStep::Bad(k) => (QueueStep::Halted, s.skip(k)),
        SpecStep::Msg(m, k) => (QueueStep::Parsed(m), s.skip(k)),
    }
}

/// `find_colon` returns the first terminator at or after `from`, if any.
proof fn lemma_find_colon(s: Seq<u8>, from: int)
    requires
        0 <= from <= s.len(),
    ensures
        match find_colon(s, from) {
            Some(p) => from <= p < s.len() && s[p] == COLON
                && (forall|j: int| from <= j < p ==> s[j] != COLON),
            None => forall|j: int| from <= j < s.len() ==> s[j] != COLON,
        },
    decreases s.len() - from,
{
    if from < s.len() && s[from] != COLON {
        lemma_find_colon(s, from + 1);
    }
}

/// Any position that is a first terminator is what `find_colon` returns.
proof fn lemma_find_colon_is(s: Seq<u8>, from: int, p: int)
    requires
        0 <= from <= p < s.len(),
        s[p] == COLON,
        forall|j: int| from <= j < p ==> s[j] != COLON,
    ensures
        find_colon(s, from) == Some(p),
    decreases p - from,
{
    if from < p {
        lemma_find_colon_is(s, from + 1, p);
    }
}

/// Every decision that consumes, consumes at least one byte and at most the
/// buffer.
proof fn lemma_step_bounds(s: Seq<u8>)
    ensures
        match spec_step(s) {
            SpecStep::NeedMore => true,
            SpecStep::Skip(k) => 1 <= k <= s.len(),
            SpecStep::Bad(k) => 3 <= k <= s.len(),
            SpecStep::Msg(_, k) => 3 <= k <= s.len(),
        },
{
    if s.len() >= 2 {
        lemma_find_colon(s, 2);
        if s[0] == TAG_RESIZE {
            match scan_number(s, 2) {
                NumScan::Val(_, end1) => {
                    lemma_find_colon(s, end1);
                },
                _ => {},
            }
        }
    }
}

/// The executable outcome of one number-field scan (nothing is consumed).
enum FieldScan {
    Incomplete,
    Guard,
    Bad(usize),
    Val(usize, usize),
}

/// Scans the number field starting at `from` without consuming anything.
fn scan_field(buf: &ByteQueue, from: usize) -> (r: FieldScan)
    requires
        from <= buf@.len(),
    ensures
        match r {
            FieldScan::Incomplete => scan_number(buf@, from as int) == NumScan::Incomplete,
            FieldScan::Guard => scan_number(buf@, from as int) == NumScan::Guard
                && buf@.len() - from > FIELD_LIMIT,
            FieldScan::Bad(end) => scan_number(buf@, from as int) == NumScan::Bad(end as int)
                && from < end <= buf@.len(),
            FieldScan::Val(v, end) => scan_number(buf@, from as int) == NumScan::Val(
                v as nat,
                end as int,
            ) && from < end <= buf@.len(),
        },
{
    proof {
        lemma_find_colon(buf@, from as int);
    }
    match buf.find_byte(COLON, from) {
        None => {
            if buf.len() - from > FIELD_LIMIT {
                FieldScan::Guard
            } else {
                FieldScan::Incomplete
            }
        },
        Some(p) => {
            proof {
                lemma_find_colon_is(buf@, from as int, p as int);
            }
            let blen = buf.len();
            assert(p < blen);
            let mut tok: Vec<u8> = Vec::new();
            let mut i: usize = from;
            while i < p
                invariant
                    from <= i <= p < buf@.len(),
                    tok@ == buf@.subrange(from as int, i as int),
                decreases p - i,
            {
                let b = buf.byte_at(i);
                tok.push(b);
                i += 1;
            }
            assert(tok@ =~= buf@.subrange(from as int, p as int));
            match parse_decimal(tok.as_slice()) {
                Some(v) => FieldScan::Val(v, p + 1),
                None => FieldScan::Bad(p + 1),
            }
        },
    }
}

/// Extracts the next control message from the accumulated bytes, consuming
/// exactly the decided-on bytes. Returns as soon as either a message is
/// complete, a malformed number field halts the pass, or no complete
/// message remains in the buffer; nothing is consumed for an incomplete
/// message, so the result does not depend on chunk boundaries.
pub fn process_queue(buf: &mut ByteQueue) -> (r: QueueStep)
    requires
        old(buf).wf(),
    ensures
        final(buf).wf(),
        final(buf).cap() == old(buf).cap(),
        r == spec_drain(old(buf)@).0,
        final(buf)@ == spec_drain(old(buf)@).1,
{
    loop
        invariant
            buf.wf(),
            buf.cap() == old(buf).cap(),
            spec_drain(buf@) == spec_drain(old(buf)@),
        decreases buf@.len(),
    {
        if buf.len() < 2 {
            assert(spec_step(buf@) == SpecStep::NeedMore);
            return QueueStep::Pending;
        }
        let tag = buf.byte_at(0);
        if tag == TAG_DATA {
            match scan_field(buf, 2) {
                FieldScan::Incomplete => {
                    return QueueStep::Pending;
                },
                FieldScan::Guard => {
                    buf.consume(FIELD_LIMIT);
                },
                FieldScan::Bad(end) => {
                    buf.consume(end);
                    return QueueStep::Halted;
                },
                FieldScan::Val(v, end) => {
                    buf.consume(end);
                    return QueueStep::Parsed(Message::Data(v));
                },
            }
        } else if tag == TAG_RESIZE {
            match scan_field(buf, 2) {
                FieldScan::Incomplete => {
                    return QueueStep::Pending;
                },
                FieldScan::Guard => {
                    buf.consume(FIELD_LIMIT);
                },
                FieldScan::Bad(end) => {
                    buf.consume(end);
                    return QueueStep::Halted;
                },
                FieldScan::Val(c, end1) => {
                    match scan_field(buf, end1) {
                        FieldScan::Incomplete => {
                            return QueueStep::Pending;
                        },
                        FieldScan::Guard => {
                            buf.consume(FIELD_LIMIT);
                        },
                        FieldScan::Bad(end2) => {
                            buf.consume(end2);
                            return QueueStep::Halted;
                        },
                        FieldScan::Val(r, end2) => {
                            buf.consume(end2);
                            let cols = (c % 65536) as u16;
                            let rows = (r % 65536) as u16;
                            return QueueStep::Parsed(Message::Resize(cols, rows));
                        },
                    }
                },
            }
        } else {
            assert(spec_step(buf@) == SpecStep::Skip(1));
            buf.consume(1);
        }
    }
}

/// An observable effect of the codec and the forwarding loop on the
/// network-to-terminal stream, in arrival order.
pub enum Ev {
    /// One raw payload byte handed to the terminal verbatim.
    Forward(u8),
    /// The terminal geometry was set to the given columns and rows.
    Resized(u16, u16),
}

/// A byte sequence forwarded verbatim, as individual events.
pub open spec fn byte_evs(s: Seq<u8>) -> Seq<Ev> {
    s.map_values(|b: u8| Ev::Forward(b))
}

/// Processes buffered bytes to quiescence: while a DATA payload is
/// outstanding (`rem` bytes) they are forwarded verbatim; otherwise
/// messages are parsed, resize messages take effect in place, and skips
/// and malformed fields consume as decided. Yields the events emitted, the
/// outstanding payload count, and the bytes left waiting for more input.
pub open spec fn run(rem: nat, s: Seq<u8>) -> (Seq<Ev>, nat, Seq<u8>)
    decreases s.len(),
{
    if rem > 0 {
        if s.len() == 0 {
            (Seq::<Ev>::empty(), rem, s)
        } else if s.len() <= rem {
            (byte_evs(s), (rem - s.len()) as nat, Seq::<u8>::empty())
        } else {
            let tail = run(0, s.skip(rem as int));
            (byte_evs(s.take(rem as int)) + tail.0, tail.1, tail.2)
        }
    } else {
        match spec_step(s) {
            SpecStep::NeedMore => (Seq::<Ev>::empty(), 0, s),
            SpecStep::Skip(k) => if 1 <= k <= s.len() {
                run(0, s.skip(k))
            } else {
                (Seq::<Ev>::empty(), 0, s)
            },
            SpecStep::Bad(k) => if 1 <= k <= s.len() {
                run(0, s.skip(k))
            } else {
                (Seq::<Ev>::empty(), 0, s)
            },
            SpecStep::Msg(m, k) => if 1 <= k <= s.len() {
                match m {
                    Message::Data(len) => run(len as nat, s.skip(k)),
                    Message::Resize(c, r) => {
                        let tail = run(0, s.skip(k));
                        (seq![Ev::Resized(c, r)] + tail.0, tail.1, tail.2)
                    },
                }
            } else {
                (Seq::<Ev>::empty(), 0, s)
            },
        }
    }
}

/// The number field starting at `from` is terminated within
/// [`FIELD_LIMIT`] bytes, or is still shorter than that.
pub open spec fn scan_ok(s: Seq<u8>, from: int) -> bool {
    match find_colon(s, from) {
        Some(p) => p - from <= FIELD_LIMIT,
        None => s.len() - from <= FIELD_LIMIT,
    }
}

/// The next parsing decision on `s` meets [`scan_ok`] for every number
/// field it scans.
pub open spec fn step_ok(s: Seq<u8>) -> bool {
    if s.len() < 2 {
        true
    } else if s[0] == TAG_DATA {
        scan_ok(s, 2)
    } else if s[0] == TAG_RESIZE {
        scan_ok(s, 2) && (match scan_number(s, 2) {
            NumScan::Val(_, end1) => scan_ok(s, end1),
            _ => true,
        })
    } else {
        true
    }
}

/// Every number field met while processing `s` (with `rem` payload bytes
/// outstanding) is terminated within [`FIELD_LIMIT`] bytes of its start.
pub open spec fn run_ok(rem: nat, s: Seq<u8>) -> bool
    decreases s.len(),
{
    if rem > 0 {
        if s.len() <= rem {
            true
        } else {
            run_ok(0, s.skip(rem as int))
        }
    } else {
        step_ok(s) && (match spec_step(s) {
            SpecStep::NeedMore => true,
            SpecStep::Skip(k) => if 1 <= k <= s.len() {
                run_ok(0, s.skip(k))
            } else {
                true
            },
            SpecStep::Bad(k) => if 1 <= k <= s.len() {
                run_ok(0, s.skip(k))
            } else {
                true
            },
            SpecStep::Msg(m, k) => if 1 <= k <= s.len() {
                match m {
                    Message::Data(len) => run_ok(len as nat, s.skip(k)),
                    Message::Resize(_, _) => run_ok(0, s.skip(k)),
                }
            } else {
                true
            },
        })
    }
}

/// A malformed or unterminated number field never stalls the parser: a
/// pass that yields no message has either consumed bytes (the buffer
/// strictly shrinks) or left the buffer waiting for more input.
pub proof fn lemma_no_stall(s: Seq<u8>)
    ensures
        ({
            let (o, left) = spec_drain(s);
            &&& left.len() <= s.len()
            &&& o == QueueStep::Halted ==> left.len() < s.len()
            &&& o is Parsed ==> left.len() < s.len()
            &&& o == QueueStep::Pending ==> spec_step(left) == SpecStep::NeedMore
        }),
    decreases s.len(),
{
    lemma_step_bounds(s);
    match spec_step(s) {
        SpecStep::Skip(k) => {
            if 1 <= k <= s.len() {
                lemma_no_stall(s.skip(k));
            }
        },
        _ => {},
    }
}

/// Appending bytes does not move an already-found field terminator, and
/// any terminator it adds lies beyond the bytes already present.
proof fn lemma_find_colon_prefix(s: Seq<u8>, t: Seq<u8>, from: int)
    requires
        0 <= from <= s.len(),
    ensures
        find_colon(s, from) is Some ==> find_colon(s + t, from) == find_colon(s, from),
        find_colon(s, from) is None && find_colon(s + t, from) is Some ==> find_colon(
            s + t,
            from,
        )->Some_0 >= s.len(),
    decreases s.len() - from,
{
    if from < s.len() {
        assert((s + t)[from] == s[from]);
        if s[from] != COLON {
            lemma_find_colon_prefix(s, t, from + 1);
        }
    } else {
        if find_colon(s + t, from) is Some {
            lemma_find_colon(s + t, from);
        }
    }
}

/// On a well-terminated stream, scanning a prefix of it either waits for
/// more input or decides exactly as the whole stream does.
proof fn lemma_scan_prefix(s: Seq<u8>, t: Seq<u8>, from: int)
    requires
        0 <= from <= s.len(),
        scan_ok(s + t, from),
    ensures
        scan_number(s, from) == NumScan::Incomplete || scan_number(s, from) == scan_number(
            s + t,
            from,
        ),
{
    lemma_find_colon_prefix(s, t, from);
    lemma_find_colon(s, from);
    lemma_find_colon(s + t, from);
    match find_colon(s, from) {
        Some(p) => {
            assert(find_colon(s + t, from) == Some(p));
            assert(s.subrange(from, p) =~= (s + t).subrange(from, p));
        },
        None => {
            match find_colon(s + t, from) {
                Some(q) => {
                    assert(q >= s.len());
                    assert(s.len() - from <= FIELD_LIMIT);
                },
                None => {
                    assert(s.len() - from <= (s + t).len() - from);
                },
            }
        },
    }
}

/// On a well-terminated stream, the next decision on a prefix of it is
/// either to wait for more input or exactly the decision on the whole.
proof fn lemma_step_prefix(s: Seq<u8>, t: Seq<u8>)
    requires
        step_ok(s + t),
    ensures
        spec_step(s) == SpecStep::NeedMore || spec_step(s) == spec_step(s + t),
{
    if s.len() >= 2 {
        assert((s + t)[0] == s[0]);
        if s[0] == TAG_DATA {
            lemma_scan_prefix(s, t, 2);
        } else if s[0] == TAG_RESIZE {
            lemma_scan_prefix(s, t, 2);
            match scan_number(s, 2) {
                NumScan::Val(c, end1) => {
                    lemma_find_colon(s, 2);
                    lemma_scan_prefix(s, t, end1);
                },
                _ => {},
            }
        }
    }
}

proof fn lemma_byte_evs_add(a: Seq<u8>, b: Seq<u8>)
    ensures
        byte_evs(a + b) == byte_evs(a) + byte_evs(b),
{
    assert(byte_evs(a + b) =~= byte_evs(a) + byte_evs(b));
}

/// Chunk-boundary insensitivity: processing `s`, then continuing with `t`
/// appended to what was left over, emits exactly the events of processing
/// `s + t` in one piece, and ends in the same state - provided every
/// number field in the combined stream is terminated within
/// [`FIELD_LIMIT`] bytes of its start.
pub proof fn lemma_chunk_insensitive(rem: nat, s: Seq<u8>, t: Seq<u8>)
    requires
        run_ok(rem, s + t),
    ensures
        ({
            let a = run(rem, s);
            let b = run(a.1, a.2 + t);
            let c = run(rem, s + t);
            c.0 == a.0 + b.0 && c.1 == b.1 && c.2 == b.2
        }),
    decreases s.len(),
{
    let u = s + t;
    let a = run(rem, s);
    let b = run(a.1, a.2 + t);
    let c = run(rem, u);
    if rem > 0 {
        if s.len() == 0 {
            assert(s + t =~= t);
            assert(a.2 + t =~= u);
            assert(a.0 + b.0 =~= b.0);
        } else if s.len() <= rem {
            assert(a.2 + t =~= t);
            assert(b == run((rem - s.len()) as nat, t));
            let rem2 = (rem - s.len()) as nat;
            if u.len() <= rem {
                if t.len() == 0 {
                    assert(u =~= s);
                    assert(b.0 =~= Seq::<Ev>::empty());
                    assert(a.0 + b.0 =~= a.0);
                } else {
                    assert(t.len() <= rem2);
                    lemma_byte_evs_add(s, t);
                }
            } else {
                if rem2 == 0 {
                    assert(u.take(rem as int) =~= s);
                    assert(u.skip(rem as int) =~= t);
                    assert(b == run(0, t));
                } else {
                    assert(u.take(rem as int) =~= s + t.take(rem2 as int));
                    assert(u.skip(rem as int) =~= t.skip(rem2 as int));
                    lemma_byte_evs_add(s, t.take(rem2 as int));
                    assert(a.0 + (byte_evs(t.take(rem2 as int)) + run(0, t.skip(rem2 as int)).0)
                        =~= (a.0 + byte_evs(t.take(rem2 as int))) + run(0, t.skip(rem2 as int)).0);
                }
            }
        } else {
            // s.len() > rem >= 1: forward rem bytes, then parse the rest
            assert(u.len() > rem);
            assert(u.take(rem as int) =~= s.take(rem as int));
            assert(u.skip(rem as int) =~= s.skip(rem as int) + t);
            assert(run_ok(0, s.skip(rem as int) + t));
            lemma_chunk_insensitive(0, s.skip(rem as int), t);
            let a2 = run(0, s.skip(rem as int));
            assert(a.1 == a2.1 && a.2 == a2.2);
            let b2 = run(a2.1, a2.2 + t);
            assert(b == b2);
            assert(byte_evs(s.take(rem as int)) + (a2.0 + b.0) =~= (byte_evs(s.take(rem as int))
                + a2.0) + b.0);
        }
    } else {
        assert(step_ok(u));
        lemma_step_prefix(s, t);
        if spec_step(s) == SpecStep::NeedMore {
            assert(a == (Seq::<Ev>::empty(), 0nat, s));
            assert(a.2 + t == u);
            assert(a.0 + b.0 =~= b.0);
        } else {
            assert(spec_step(s) == spec_step(u));
            lemma_step_bounds(s);
            lemma_step_bounds(u);
            match spec_step(s) {
                SpecStep::NeedMore => {},
                SpecStep::Skip(k) => {
                    assert(u.skip(k) =~= s.skip(k) + t);
                    assert(run_ok(0, s.skip(k) + t));
                    lemma_chunk_insensitive(0, s.skip(k), t);
                },
                SpecStep::Bad(k) => {
                    assert(u.skip(k) =~= s.skip(k) + t);
                    assert(run_ok(0, s.skip(k) + t));
                    lemma_chunk_insensitive(0, s.skip(k), t);
                },
                SpecStep::Msg(m, k) => {
                    assert(u.skip(k) =~= s.skip(k) + t);
                    match m {
                        Message::Data(len) => {
                            assert(run_ok(len as nat, s.skip(k) + t));
                            lemma_chunk_insensitive(len as nat, s.skip(k), t);
                        },
                        Message::Resize(cc, rr) => {
                            assert(run_ok(0, s.skip(k) + t));
                            lemma_chunk_insensitive(0, s.skip(k), t);
                            let a2 = run(0, s.skip(k));
                            assert(a.1 == a2.1 && a.2 == a2.2);
                            assert(b == run(a2.1, a2.2 + t));
                            assert(seq![Ev::Resized(cc, rr)] + (a2.0 + b.0) =~= (seq![
                                Ev::Resized(cc, rr),
                            ] + a2.0) + b.0);
                        },
                    }
                },
            }
        }
    }
}

/// One parsing pass agrees with the cumulative model: what [`run`] does
/// on the buffer decomposes through the pass outcome of [`spec_drain`]
/// (which is what [`process_queue`] implements).
pub proof fn lemma_drain_run(s: Seq<u8>)
    ensures
        ({
            let (o, left) = spec_drain(s);
            match o {
                QueueStep::Pending => run(0, s) == (Seq::<Ev>::empty(), 0nat, left),
                QueueStep::Halted => run(0, s) == run(0, left),
                QueueStep::Parsed(m) => match m {
                    Message::Data(len) => run(0, s) == run(len as nat, left),
                    Message::Resize(c, r) => run(0, s).0 == seq![Ev::Resized(c, r)] + run(
                        0,
                        left,
                    ).0 && run(0, s).1 == run(0, left).1 && run(0, s).2 == run(0, left).2,
                },
            }
        }),
    decreases s.len(),
{
    lemma_step_bounds(s);
    match spec_step(s) {
        SpecStep::Skip(k) => {
            if 1 <= k <= s.len() {
                lemma_drain_run(s.skip(k));
            }
        },
        _ => {},
    }
}

/// The wire form of a DATA message: tag, separator, decimal length token,
/// terminator, then the raw payload.
pub open spec fn data_frame(sep: u8, tok: Seq<u8>, payload: Seq<u8>) -> Seq<u8> {
    seq![TAG_DATA, sep] + tok + seq![COLON] + payload
}

/// The wire form of a RESIZE message: tag, separator, then the column and
/// row tokens, each terminated; no payload follows.
pub open spec fn resize_frame(sep: u8, ctok: Seq<u8>, rtok: Seq<u8>) -> Seq<u8> {
    seq![TAG_RESIZE, sep] + ctok + seq![COLON] + rtok + seq![COLON]
}

/// Payload opacity: the declared number of raw bytes after a DATA header
/// is forwarded verbatim, whatever the bytes hold (bytes that look like
/// further message tags included), and parsing resumes only after them.
pub proof fn lemma_payload_opaque(sep: u8, tok: Seq<u8>, payload: Seq<u8>, rest: Seq<u8>)
    requires
        is_decimal(tok),
        digits_val(tok) == payload.len(),
        digits_val(tok) <= usize::MAX,
    ensures
        run(0, data_frame(sep, tok, payload) + rest).0 == byte_evs(payload) + run(0, rest).0,
        run(0, data_frame(sep, tok, payload) + rest).1 == run(0, rest).1,
        run(0, data_frame(sep, tok, payload) + rest).2 == run(0, rest).2,
{
    let s = data_frame(sep, tok, payload) + rest;
    let n = tok.len() as int;
    assert forall|j: int| 2 <= j < 2 + n implies s[j] != COLON by {
        assert(s[j] == tok[j - 2]);
        assert(is_ascii_digit(tok[j - 2]));
    }
    assert(s[2 + n] == COLON);
    lemma_find_colon_is(s, 2, 2 + n);
    assert(s.subrange(2, 2 + n) =~= tok);
    assert(s[0] == TAG_DATA);
    let len = payload.len();
    assert(spec_step(s) == SpecStep::Msg(Message::Data(len as usize), 3 + n));
    assert(s.skip(3 + n) =~= payload + rest);
    assert(1 <= 3 + n <= s.len());
    assert(((len as usize) as nat) == len);
    assert(run(0, s) == run(len, s.skip(3 + n)));
    assert(run(0, s) == run(len, payload + rest));
    if len == 0 {
        assert(payload + rest =~= rest);
        assert(byte_evs(payload) + run(0, rest).0 =~= run(0, rest).0);
    } else {
        let pr = payload + rest;
        if rest.len() == 0 {
            assert(pr =~= payload);
            assert(run(0, s).0 == byte_evs(payload));
            assert(run(0, s).1 == 0);
            assert(run(0, s).2 == Seq::<u8>::empty());
            assert(spec_step(rest) == SpecStep::NeedMore);
            assert(run(0, rest).0 == Seq::<Ev>::empty());
            assert(run(0, rest).1 == 0);
            assert(run(0, rest).2 == rest);
            assert(byte_evs(payload) + Seq::<Ev>::empty() =~= byte_evs(payload));
            assert(Seq::<u8>::empty() =~= rest);
        } else {
            assert(pr.len() > len);
            assert(pr.take(len as int) =~= payload);
            assert(pr.skip(len as int) =~= rest);
        }
    }
}

/// A RESIZE message takes effect exactly where it stands in the stream:
/// processing emits the geometry change and continues with what follows.
pub proof fn lemma_resize_in_place(sep: u8, ctok: Seq<u8>, rtok: Seq<u8>, rest: Seq<u8>)
    requires
        is_decimal(ctok),
        digits_val(ctok) <= usize::MAX,
        is_decimal(rtok),
        digits_val(rtok) <= usize::MAX,
    ensures
        run(0, resize_frame(sep, ctok, rtok) + rest).0 == seq![
            Ev::Resized(
                (digits_val(ctok) % 0x10000) as u16,
                (digits_val(rtok) % 0x10000) as u16,
            ),
        ] + run(0, rest).0,
        run(0, resize_frame(sep, ctok, rtok) + rest).1 == run(0, rest).1,
        run(0, resize_frame(sep, ctok, rtok) + rest).2 == run(0, rest).2,
{
    let s = resize_frame(sep, ctok, rtok) + rest;
    let cn = ctok.len() as int;
    let rn = rtok.len() as int;
    assert forall|j: int| 2 <= j < 2 + cn implies s[j] != COLON by {
        assert(s[j] == ctok[j - 2]);
        assert(is_ascii_digit(ctok[j - 2]));
    }
    assert(s[2 + cn] == COLON);
    lemma_find_colon_is(s, 2, 2 + cn);
    assert(s.subrange(2, 2 + cn) =~= ctok);
    let e1 = 3 + cn;
    assert forall|j: int| e1 <= j < e1 + rn implies s[j] != COLON by {
        assert(s[j] == rtok[j - e1]);
        assert(is_ascii_digit(rtok[j - e1]));
    }
    assert(s[e1 + rn] == COLON);
    lemma_find_colon_is(s, e1, e1 + rn);
    assert(s.subrange(e1, e1 + rn) =~= rtok);
    assert(s[0] == TAG_RESIZE);
    let e2 = e1 + rn + 1;
    assert(spec_step(s) == SpecStep::Msg(
        Message::Resize(
            (digits_val(ctok) % 0x10000) as u16,
            (digits_val(rtok) % 0x10000) as u16,
        ),
        e2,
    ));
    assert(s.skip(e2) =~= rest);
}

/// A RESIZE message arriving between two DATA payloads takes effect
/// strictly between the payload bytes preceding it and those following it,
/// in arrival order.
pub proof fn lemma_resize_between_data(
    sep1: u8,
    tok1: Seq<u8>,
    p1: Seq<u8>,
    sep2: u8,
    ctok: Seq<u8>,
    rtok: Seq<u8>,
    sep3: u8,
    tok2: Seq<u8>,
    p2: Seq<u8>,
    rest: Seq<u8>,
)
    requires
        is_decimal(tok1),
        digits_val(tok1) == p1.len(),
        digits_val(tok1) <= usize::MAX,
        is_decimal(ctok),
        digits_val(ctok) <= usize::MAX,
        is_decimal(rtok),
        digits_val(rtok) <= usize::MAX,
        is_decimal(tok2),
        digits_val(tok2) == p2.len(),
        digits_val(tok2) <= usize::MAX,
    ensures
        run(
            0,
            data_frame(sep1, tok1, p1) + (resize_frame(sep2, ctok, rtok) + (data_frame(
                sep3,
                tok2,
                p2,
            ) + rest)),
        ).0 == byte_evs(p1) + (seq![
            Ev::Resized(
                (digits_val(ctok) % 0x10000) as u16,
                (digits_val(rtok) % 0x10000) as u16,
            ),
        ] + (byte_evs(p2) + run(0, rest).0)),
{
    lemma_payload_opaque(sep3, tok2, p2, rest);
    lemma_resize_in_place(sep2, ctok, rtok, data_frame(sep3, tok2, p2) + rest);
    lemma_payload_opaque(
        sep1,
        tok1,
        p1,
        resize_frame(sep2, ctok, rtok) + (data_frame(sep3, tok2, p2) + rest),
    );
}

} // verus!
