//! Framing engine.
//!
//! A byte-level state machine that drains a bounded single-producer /
//! single-consumer byte queue and parses an interleaved stream of frames
//! into typed messages, held in a fixed round-robin pool of `MSG_COUNT`
//! slots. The pool is deliberately lossy: a frame completing when the pool
//! is full silently overwrites the oldest slot.
//!
//! Frame layout: `STX`, one ignored framing byte, one type byte, `DELIM`,
//! the payload bytes, `ETX`. Bytes outside a frame are discarded, so the
//! next `STX` always resynchronizes parsing.

use vstd::prelude::*;
use crate::application_manager::Error;

verus! {

/// Payload bound of one message slot, in bytes.
pub const MSG_SIZE: usize = 256;

/// Number of slots in the round-robin message pool.
pub const MSG_COUNT: usize = 8;

/// Start-of-frame marker.
pub const STX: u8 = 2;

/// End-of-frame marker.
pub const ETX: u8 = 3;

/// Unit separator between the type byte and the payload.
pub const DELIM: u8 = 31;

/// How many bytes the receive queue holds at most: one less than its
/// backing array, as the queue keeps one slot free.
pub const QUEUE_CAPACITY: usize = 255;

/// The tag a parsed frame carries.
#[derive(Debug, Clone, Copy, PartialEq, Eq, Structural)]
pub enum MessageType {
    Unknown,
    Notification,
    Weather,
    Date,
    Music,
}

/// The parser's protocol state.
#[derive(Debug, Clone, Copy, PartialEq, Eq, Structural)]
pub enum MessageState {
    /// Waiting for a frame start; everything else is discarded.
    Wait,
    /// Frame started; the next plain byte is the ignored framing byte.
    Init,
    /// The next plain byte is the type byte.
    Type,
    /// Plain bytes are appended to the current slot's payload.
    Payload,
}

/// One message slot: a type tag, a fixed payload buffer, and the payload
/// write cursor. Bytes past the cursor are stale.
pub struct Message {
    pub msg_type: MessageType,
    pub payload: Vec<u8>,
    pub payload_idx: usize,
}

/// Abstract value of one message slot.
#[verifier::ext_equal]
pub struct MsgModel {
    pub msg_type: MessageType,
    pub payload: Seq<u8>,
    pub payload_idx: int,
}

/// Abstract state of the framing engine: the pool, the round-robin cursor,
/// and the protocol state.
#[verifier::ext_equal]
pub struct ParseModel {
    pub pool: Seq<MsgModel>,
    pub idx: int,
    pub state: MessageState,
}

/// Well-formedness of the abstract state: a full pool of bounded slots and
/// an in-range cursor.
pub open spec fn model_wf(m: ParseModel) -> bool {
    &&& m.pool.len() == MSG_COUNT
    &&& 0 <= m.idx < MSG_COUNT
    &&& forall|i: int|
        0 <= i < MSG_COUNT ==> (#[trigger] m.pool[i]).payload.len() == MSG_SIZE && 0
            <= m.pool[i].payload_idx <= MSG_SIZE
}

/// The type tag a type byte maps to: `N`, `W`, `D` and `M` name the four
/// known kinds; every other byte maps to `Unknown`.
pub open spec fn msg_type_of(b: u8) -> MessageType {
    if b == 78u8 {
        MessageType::Notification
    } else if b == 87u8 {
        MessageType::Weather
    } else if b == 68u8 {
        MessageType::Date
    } else if b == 77u8 {
        MessageType::Music
    } else {
        MessageType::Unknown
    }
}

/// Appends one payload byte to the current slot, or faults (`None`) when
/// the payload bound is reached.
pub open spec fn step_payload(m: ParseModel, b: u8) -> Option<ParseModel> {
    let msg = m.pool[m.idx];
    if msg.payload_idx < MSG_SIZE {
        Some(
            ParseModel {
                pool: m.pool.update(
                    m.idx,
                    MsgModel {
                        payload: msg.payload.update(msg.payload_idx, b),
                        payload_idx: msg.payload_idx + 1,
                        msg_type: msg.msg_type,
                    },
                ),
                ..m
            },
        )
    } else {
        None
    }
}

/// One transition of the framing state machine on one byte. `STX` always
/// restarts the current slot's frame; `ETX` outside `Wait` finalizes the
/// slot and advances the cursor, wrapping past the last slot to slot 0;
/// `DELIM` moves from `Type` to `Payload` and counts as payload data once
/// in `Payload`. `None` is the payload-overflow fault.
pub open spec fn step(m: ParseModel, b: u8) -> Option<ParseModel>
    recommends
        model_wf(m),
{
    if b == STX {
        Some(
            ParseModel {
                state: MessageState::Init,
                pool: m.pool.update(
                    m.idx,
                    MsgModel { payload_idx: 0, ..m.pool[m.idx] },
                ),
                idx: m.idx,
            },
        )
    } else if b == ETX {
        if m.state == MessageState::Wait {
            Some(m)
        } else {
            Some(
                ParseModel {
                    state: MessageState::Wait,
                    pool: m.pool,
                    idx: if m.idx + 1 == MSG_COUNT {
                        0
                    } else {
                        m.idx + 1
                    },
                },
            )
        }
    } else if b == DELIM {
        match m.state {
            MessageState::Wait => Some(m),
            MessageState::Init => Some(m),
            MessageState::Type => Some(ParseModel { state: MessageState::Payload, ..m }),
            MessageState::Payload => step_payload(m, b),
        }
    } else {
        match m.state {
            MessageState::Wait => Some(m),
            MessageState::Init => Some(ParseModel { state: MessageState::Type, ..m }),
            MessageState::Type => Some(
                ParseModel {
                    pool: m.pool.update(
                        m.idx,
                        MsgModel { msg_type: msg_type_of(b), ..m.pool[m.idx] },
                    ),
                    ..m
                },
            ),
            MessageState::Payload => step_payload(m, b),
        }
    }
}

/// The state machine run over a whole byte sequence; `None` as soon as one
/// transition faults.
pub open spec fn run(m: ParseModel, bytes: Seq<u8>) -> Option<ParseModel>
    decreases bytes.len(),
{
    if bytes.len() == 0 {
        Some(m)
    } else {
        match step(m, bytes[0]) {
            Option::None => None,
            Option::Some(m2) => run(m2, bytes.drop_first()),
        }
    }
}

/// The state after recovering from a fault: back to `Wait`, the pool and
/// cursor as they were.
pub open spec fn recovered(m: ParseModel) -> ParseModel {
    ParseModel { state: MessageState::Wait, ..m }
}

/// One transition preserves well-formedness.
pub proof fn lemma_step_preserves_wf(m: ParseModel, b: u8)
    requires
        model_wf(m),
        step(m, b) is Some,
    ensures
        model_wf(step(m, b)->0),
{
}

/// Running a concatenation is running the first part, then the second.
pub proof fn lemma_run_concat(m: ParseModel, s1: Seq<u8>, s2: Seq<u8>)
    ensures
        run(m, s1 + s2) == (match run(m, s1) {
            Option::None => None::<ParseModel>,
            Option::Some(m2) => run(m2, s2),
        }),
    decreases s1.len(),
{
    if s1.len() == 0 {
        assert(s1 + s2 =~= s2);
    } else {
        assert((s1 + s2)[0] == s1[0]);
        assert((s1 + s2).drop_first() =~= s1.drop_first() + s2);
        match step(m, s1[0]) {
            Option::None => {
            },
            Option::Some(m2) => {
                lemma_run_concat(m2, s1.drop_first(), s2);
            },
        }
    }
}

/// Running one more byte after a sequence is one more transition.
pub proof fn lemma_run_snoc(m: ParseModel, s: Seq<u8>, b: u8)
    ensures
        run(m, s.push(b)) == (match run(m, s) {
            Option::None => None::<ParseModel>,
            Option::Some(m2) => step(m2, b),
        }),
{
    let s2 = seq![b];
    assert(s.push(b) =~= s + s2);
    lemma_run_concat(m, s, s2);
    match run(m, s) {
        Option::None => {
            assert(run(m, s + s2) is None);
        },
        Option::Some(m2) => {
            assert(s2[0] == b);
            match step(m2, b) {
                Option::None => {
                    assert(run(m2, s2) is None);
                },
                Option::Some(m3) => {
                    assert(s2.drop_first() =~= Seq::<u8>::empty());
                    assert(run(m3, s2.drop_first()) == Some(m3));
                    assert(run(m2, s2) == Some(m3));
                },
            }
        },
    }
}

/// A byte with no protocol meaning: anything but the three control bytes.
pub open spec fn plain_byte(b: u8) -> bool {
    b != STX && b != ETX && b != DELIM
}

/// In the `Wait` state every byte but `STX` is discarded: running any
/// `STX`-free sequence changes nothing.
pub proof fn lemma_wait_discards(m: ParseModel, bytes: Seq<u8>)
    requires
        m.state == MessageState::Wait,
        forall|i: int| 0 <= i < bytes.len() ==> #[trigger] bytes[i] != STX,
    ensures
        run(m, bytes) == Some(m),
    decreases bytes.len(),
{
    if bytes.len() > 0 {
        assert(step(m, bytes[0]) == Some(m));
        assert(forall|i: int|
            0 <= i < bytes.drop_first().len() ==> #[trigger] bytes.drop_first()[i] != STX);
        lemma_wait_discards(m, bytes.drop_first());
    }
}

/// Bytes received before the first `STX` do not affect how what follows
/// them is parsed.
pub proof fn lemma_prefix_garbage_ignored(m: ParseModel, garbage: Seq<u8>, rest: Seq<u8>)
    requires
        m.state == MessageState::Wait,
        forall|i: int| 0 <= i < garbage.len() ==> #[trigger] garbage[i] != STX,
    ensures
        run(m, garbage + rest) == run(m, rest),
{
    lemma_wait_discards(m, garbage);
    lemma_run_concat(m, garbage, rest);
}

/// The byte sequence of one complete frame: start marker, one ignored
/// framing byte, the type byte, the separator, the payload, end marker.
pub open spec fn frame_bytes(framing: u8, type_byte: u8, payload: Seq<u8>) -> Seq<u8> {
    seq![STX, framing, type_byte, DELIM] + payload + seq![ETX]
}

/// `base` with `p` written over its bytes starting at offset `at`.
pub open spec fn splice(base: Seq<u8>, at: int, p: Seq<u8>) -> Seq<u8> {
    base.take(at) + p + base.skip(at + p.len())
}

/// The round-robin cursor after a frame finalizes: advance, wrapping past
/// the last slot to slot 0.
pub open spec fn next_idx(i: int) -> int {
    if i + 1 == MSG_COUNT {
        0
    } else {
        i + 1
    }
}

/// Running plain payload bytes in the `Payload` state appends them at the
/// current slot's cursor.
proof fn lemma_payload_run(m: ParseModel, p: Seq<u8>)
    requires
        model_wf(m),
        m.state == MessageState::Payload,
        forall|i: int| 0 <= i < p.len() ==> plain_byte(#[trigger] p[i]),
        m.pool[m.idx].payload_idx + p.len() <= MSG_SIZE,
    ensures
        run(m, p) == Some(
            ParseModel {
                pool: m.pool.update(
                    m.idx,
                    MsgModel {
                        msg_type: m.pool[m.idx].msg_type,
                        payload: splice(m.pool[m.idx].payload, m.pool[m.idx].payload_idx, p),
                        payload_idx: m.pool[m.idx].payload_idx + p.len(),
                    },
                ),
                idx: m.idx,
                state: MessageState::Payload,
            },
        ),
    decreases p.len(),
{
    let base = m.pool[m.idx].payload;
    let at = m.pool[m.idx].payload_idx;
    if p.len() == 0 {
        assert(splice(base, at, p) =~= base);
        assert(m.pool.update(m.idx, m.pool[m.idx]) =~= m.pool);
        assert(Some(
            ParseModel {
                pool: m.pool.update(
                    m.idx,
                    MsgModel { msg_type: m.pool[m.idx].msg_type, payload: splice(base, at, p), payload_idx: at + p.len() },
                ),
                idx: m.idx,
                state: MessageState::Payload,
            },
        ) =~~= Some(m));
    } else {
        let m1 = step(m, p[0])->0;
        assert(step(m, p[0]) == step_payload(m, p[0]));
        assert(m1.pool[m.idx].payload == base.update(at, p[0]));
        lemma_step_preserves_wf(m, p[0]);
        assert(forall|i: int|
            0 <= i < p.drop_first().len() ==> plain_byte(#[trigger] p.drop_first()[i]));
        lemma_payload_run(m1, p.drop_first());
        assert(splice(base.update(at, p[0]), at + 1, p.drop_first()) =~= splice(base, at, p));
        assert(m1.pool.update(
            m.idx,
            MsgModel {
                msg_type: m1.pool[m.idx].msg_type,
                payload: splice(base.update(at, p[0]), at + 1, p.drop_first()),
                payload_idx: at + 1 + p.drop_first().len(),
            },
        ) =~~= m.pool.update(
            m.idx,
            MsgModel {
                msg_type: m.pool[m.idx].msg_type,
                payload: splice(base, at, p),
                payload_idx: at + p.len(),
            },
        ));
    }
}

/// Processing one complete frame, from any state, parses its type byte and
/// payload into the current slot and advances the round-robin cursor,
/// wrapping from the last slot back to slot 0 — so the pool keeps only the
/// most recent `MSG_COUNT` completed frames, each new one silently
/// overwriting the oldest.
pub proof fn lemma_complete_frame(m: ParseModel, framing: u8, type_byte: u8, payload: Seq<u8>)
    requires
        model_wf(m),
        plain_byte(framing),
        plain_byte(type_byte),
        forall|i: int| 0 <= i < payload.len() ==> plain_byte(#[trigger] payload[i]),
        payload.len() <= MSG_SIZE,
    ensures
        run(m, frame_bytes(framing, type_byte, payload)) == Some(
            ParseModel {
                pool: m.pool.update(
                    m.idx,
                    MsgModel {
                        msg_type: msg_type_of(type_byte),
                        payload: splice(m.pool[m.idx].payload, 0, payload),
                        payload_idx: payload.len() as int,
                    },
                ),
                idx: next_idx(m.idx),
                state: MessageState::Wait,
            },
        ),
{
    let s0 = Seq::<u8>::empty();
    let s1 = seq![STX];
    let s2 = seq![STX, framing];
    let s3 = seq![STX, framing, type_byte];
    let s4 = seq![STX, framing, type_byte, DELIM];
    assert(s1 =~= s0.push(STX));
    assert(s2 =~= s1.push(framing));
    assert(s3 =~= s2.push(type_byte));
    assert(s4 =~= s3.push(DELIM));
    lemma_run_snoc(m, s0, STX);
    let m1 = step(m, STX)->0;
    lemma_run_snoc(m, s1, framing);
    let m2 = step(m1, framing)->0;
    lemma_run_snoc(m, s2, type_byte);
    let m3 = step(m2, type_byte)->0;
    lemma_run_snoc(m, s3, DELIM);
    let m4 = step(m3, DELIM)->0;
    assert(run(m, s4) == Some(m4));
    assert(frame_bytes(framing, type_byte, payload) =~= s4 + (payload + seq![ETX]));
    lemma_run_concat(m, s4, payload + seq![ETX]);
    assert(m4.state == MessageState::Payload);
    assert(m4.idx == m.idx);
    assert(m4.pool[m.idx].payload_idx == 0);
    lemma_payload_run(m4, payload);
    let m5 = ParseModel {
        pool: m4.pool.update(
            m4.idx,
            MsgModel {
                msg_type: m4.pool[m4.idx].msg_type,
                payload: splice(m4.pool[m4.idx].payload, 0, payload),
                payload_idx: payload.len() as int,
            },
        ),
        idx: m4.idx,
        state: MessageState::Payload,
    };
    lemma_run_concat(m4, payload, seq![ETX]);
    lemma_run_snoc(m5, s0, ETX);
    assert(seq![ETX] =~= s0.push(ETX));
    let m6 = step(m5, ETX)->0;
    assert(run(m, frame_bytes(framing, type_byte, payload)) == Some(m6));
    assert(m6 =~~= (ParseModel {
        pool: m.pool.update(
            m.idx,
            MsgModel {
                msg_type: msg_type_of(type_byte),
                payload: splice(m.pool[m.idx].payload, 0, payload),
                payload_idx: payload.len() as int,
            },
        ),
        idx: next_idx(m.idx),
        state: MessageState::Wait,
    }));
}

/// One frame, described by its parts: the ignored framing byte, the type
/// byte, and the payload.
pub struct FrameSpec {
    pub framing: u8,
    pub type_byte: u8,
    pub payload: Seq<u8>,
}

/// A frame the protocol can carry: no control bytes inside, and a payload
/// within the slot bound.
pub open spec fn frame_wf(f: FrameSpec) -> bool {
    &&& plain_byte(f.framing)
    &&& plain_byte(f.type_byte)
    &&& forall|i: int| 0 <= i < f.payload.len() ==> plain_byte(#[trigger] f.payload[i])
    &&& f.payload.len() <= MSG_SIZE
}

/// The byte stream of a sequence of complete frames, in order.
pub open spec fn frames_bytes(fs: Seq<FrameSpec>) -> Seq<u8>
    decreases fs.len(),
{
    if fs.len() == 0 {
        Seq::empty()
    } else {
        frame_bytes(fs[0].framing, fs[0].type_byte, fs[0].payload) + frames_bytes(fs.drop_first())
    }
}

/// The round-robin cursor after `k` frames have finalized.
pub open spec fn idx_after(i: int, k: nat) -> int
    decreases k,
{
    if k == 0 {
        i
    } else {
        next_idx(idx_after(i, (k - 1) as nat))
    }
}

proof fn lemma_idx_after_shift(i: int, k: nat)
    requires
        k >= 1,
    ensures
        idx_after(i, k) == idx_after(next_idx(i), (k - 1) as nat),
    decreases k,
{
    if k == 1 {
        assert(idx_after(i, 0) == i);
        assert(idx_after(next_idx(i), 0) == next_idx(i));
    } else {
        lemma_idx_after_shift(i, (k - 1) as nat);
        assert(idx_after(i, (k - 1) as nat) == idx_after(next_idx(i), (k - 2) as nat));
        assert(idx_after(next_idx(i), (k - 1) as nat) == next_idx(
            idx_after(next_idx(i), (k - 2) as nat),
        ));
    }
}

/// Feeding any sequence of complete frames never faults, leaves the parser
/// waiting for the next frame, advances the cursor round-robin once per
/// frame, and leaves the slot the last frame finalized into holding exactly
/// that frame's type and payload — whatever was there before is silently
/// overwritten.
pub proof fn lemma_frames_round_robin(m: ParseModel, fs: Seq<FrameSpec>)
    requires
        model_wf(m),
        fs.len() >= 1,
        forall|k: int| 0 <= k < fs.len() ==> frame_wf(#[trigger] fs[k]),
    ensures
        ({
            let r = run(m, frames_bytes(fs));
            let last = fs[fs.len() - 1];
            let s = idx_after(m.idx, (fs.len() - 1) as nat);
            &&& r is Some
            &&& model_wf(r->0)
            &&& r->0.state == MessageState::Wait
            &&& r->0.idx == idx_after(m.idx, fs.len() as nat)
            &&& r->0.pool[s].msg_type == msg_type_of(last.type_byte)
            &&& r->0.pool[s].payload_idx == last.payload.len()
            &&& r->0.pool[s].payload.take(last.payload.len() as int) == last.payload
        }),
    decreases fs.len(),
{
    let f0 = fs[0];
    lemma_complete_frame(m, f0.framing, f0.type_byte, f0.payload);
    let m1 = ParseModel {
        pool: m.pool.update(
            m.idx,
            MsgModel {
                msg_type: msg_type_of(f0.type_byte),
                payload: splice(m.pool[m.idx].payload, 0, f0.payload),
                payload_idx: f0.payload.len() as int,
            },
        ),
        idx: next_idx(m.idx),
        state: MessageState::Wait,
    };
    assert(splice(m.pool[m.idx].payload, 0, f0.payload).len() == MSG_SIZE);
    assert(model_wf(m1));
    if fs.len() == 1 {
        assert(frames_bytes(fs.drop_first()) =~= Seq::<u8>::empty());
        assert(frames_bytes(fs) =~= frame_bytes(f0.framing, f0.type_byte, f0.payload));
        assert(m1.pool[m.idx].payload.take(f0.payload.len() as int) =~= f0.payload);
    } else {
        lemma_run_concat(
            m,
            frame_bytes(f0.framing, f0.type_byte, f0.payload),
            frames_bytes(fs.drop_first()),
        );
        assert(frames_bytes(fs) == frame_bytes(f0.framing, f0.type_byte, f0.payload)
            + frames_bytes(fs.drop_first()));
        assert(forall|k: int|
            0 <= k < fs.drop_first().len() ==> frame_wf(#[trigger] fs.drop_first()[k]));
        lemma_frames_round_robin(m1, fs.drop_first());
        lemma_idx_after_shift(m.idx, fs.len() as nat);
        lemma_idx_after_shift(m.idx, (fs.len() - 1) as nat);
        assert(fs.drop_first()[fs.drop_first().len() - 1] == fs[fs.len() - 1]);
    }
}

/// Feeding `MSG_COUNT + 1` complete frames to an engine whose cursor is at
/// slot 0 leaves slot 0 holding the last frame's data, not the first's:
/// the pool wrapped and overwrote its oldest entry.
pub proof fn lemma_pool_wraps_after_extra_frame(m: ParseModel, fs: Seq<FrameSpec>)
    requires
        model_wf(m),
        m.idx == 0,
        fs.len() == MSG_COUNT + 1,
        forall|k: int| 0 <= k < fs.len() ==> frame_wf(#[trigger] fs[k]),
    ensures
        ({
            let r = run(m, frames_bytes(fs));
            let last = fs[fs.len() - 1];
            &&& r is Some
            &&& r->0.pool[0].msg_type == msg_type_of(last.type_byte)
            &&& r->0.pool[0].payload_idx == last.payload.len()
            &&& r->0.pool[0].payload.take(last.payload.len() as int) == last.payload
        }),
{
    lemma_frames_round_robin(m, fs);
    assert(idx_after(0, 0) == 0);
    assert(idx_after(0, 1) == 1);
    assert(idx_after(0, 2) == 2);
    assert(idx_after(0, 3) == 3);
    assert(idx_after(0, 4) == 4);
    assert(idx_after(0, 5) == 5);
    assert(idx_after(0, 6) == 6);
    assert(idx_after(0, 7) == 7);
    assert(idx_after(0, 8) == 0);
}

/// How many of `n` incoming bytes fit a queue already holding `len` bytes:
/// the drop-newest overflow policy keeps the first `fit_len(len, n)` bytes
/// and drops the rest, never blocking the producing interrupt context.
pub open spec fn fit_len(len: int, n: int) -> int {
    let room = if len < QUEUE_CAPACITY {
        QUEUE_CAPACITY - len
    } else {
        0
    };
    if n <= room {
        n
    } else {
        room
    }
}

/// The bytes a receive queue holds, front (next to leave) first.
pub uninterp spec fn queue_contents(q: heapless::spsc::Queue<u8, 256>) -> Seq<u8>;

#[verifier::external_type_specification]
#[verifier::external_body]
#[verifier::reject_recursive_types(T)]
pub struct ExQueue<T, const N: usize>(heapless::spsc::Queue<T, N>);

/// Relies on `heapless::spsc::Queue::enqueue`: appends at the back and
/// succeeds exactly when the queue holds fewer than its capacity of
/// `N - 1` (here 255) items.
#[verifier::external_body]
fn rb_enqueue(q: &mut heapless::spsc::Queue<u8, 256>, byte: u8) -> (r: bool)
    ensures
        queue_contents(*old(q)).len() < QUEUE_CAPACITY ==> r && queue_contents(*final(q))
            == queue_contents(*old(q)).push(byte),
        queue_contents(*old(q)).len() >= QUEUE_CAPACITY ==> !r && *final(q) == *old(q),
{
    q.enqueue(byte).is_ok()
}

/// Relies on `heapless::spsc::Queue::dequeue`: removes and returns the
/// front item, or `None` when the queue is empty.
#[verifier::external_body]
fn rb_dequeue(q: &mut heapless::spsc::Queue<u8, 256>) -> (r: Option<u8>)
    ensures
        queue_contents(*old(q)).len() == 0 ==> r is None && *final(q) == *old(q),
        queue_contents(*old(q)).len() > 0 ==> r == Some(queue_contents(*old(q))[0])
            && queue_contents(*final(q)) == queue_contents(*old(q)).drop_first(),
{
    q.dequeue()
}

impl Message {
    /// A slot's buffer is exactly `MSG_SIZE` bytes and its cursor in bounds.
    pub open spec fn wf(&self) -> bool {
        &&& self.payload@.len() == MSG_SIZE
        &&& self.payload_idx <= MSG_SIZE
    }

    /// Abstract value of this slot.
    pub open spec fn model(&self) -> MsgModel {
        MsgModel {
            msg_type: self.msg_type,
            payload: self.payload@,
            payload_idx: self.payload_idx as int,
        }
    }

    /// A fresh slot over the given `MSG_SIZE`-byte buffer.
    pub fn new(rx_buffer: Vec<u8>) -> (r: Message)
        requires
            rx_buffer@.len() == MSG_SIZE,
        ensures
            r.wf(),
            r.model() == (MsgModel {
                msg_type: MessageType::Unknown,
                payload: rx_buffer@,
                payload_idx: 0,
            }),
    {
        Message { msg_type: MessageType::Unknown, payload: rx_buffer, payload_idx: 0 }
    }

    /// The slot's type tag.
    pub fn get_type(self) -> (r: MessageType)
        ensures
            r == self.model().msg_type,
    {
        self.msg_type
    }
}

/// The framing engine: the message pool, the receive queue it drains, the
/// protocol state and the round-robin cursor.
pub struct MessageManager {
    msg_pool: Vec<Message>,
    rb: heapless::spsc::Queue<u8, 256>,
    msg_state: MessageState,
    msg_idx: usize,
}

impl MessageManager {
    /// Internal consistency: a full pool of well-formed slots and an
    /// in-range cursor.
    pub closed spec fn wf(&self) -> bool {
        &&& self.msg_pool@.len() == MSG_COUNT
        &&& forall|i: int| 0 <= i < MSG_COUNT ==> (#[trigger] self.msg_pool@[i]).wf()
        &&& self.msg_idx < MSG_COUNT
    }

    /// Abstract state of the engine.
    pub closed spec fn model(&self) -> ParseModel {
        ParseModel {
            pool: Seq::new(self.msg_pool@.len(), |i: int| self.msg_pool@[i].model()),
            idx: self.msg_idx as int,
            state: self.msg_state,
        }
    }

    /// The bytes queued for the next `process` call, front first.
    pub closed spec fn queue(&self) -> Seq<u8> {
        queue_contents(self.rb)
    }

    /// A well-formed engine has a well-formed abstract state.
    pub proof fn lemma_wf_model(&self)
        requires
            self.wf(),
        ensures
            model_wf(self.model()),
    {
    }

    /// A fresh engine over the given pool and receive queue, waiting for
    /// the first frame start.
    pub fn new(msgs: Vec<Message>, ring_t: heapless::spsc::Queue<u8, 256>) -> (r: Self)
        requires
            msgs@.len() == MSG_COUNT,
            forall|i: int| 0 <= i < MSG_COUNT ==> (#[trigger] msgs@[i]).wf(),
        ensures
            r.wf(),
            r.model() == (ParseModel {
                pool: Seq::new(msgs@.len(), |i: int| msgs@[i].model()),
                idx: 0,
                state: MessageState::Wait,
            }),
            r.queue() == queue_contents(ring_t),
    {
        MessageManager { msg_pool: msgs, rb: ring_t, msg_state: MessageState::Wait, msg_idx: 0 }
    }

    /// Feeds received bytes into the queue, as the interrupt context does.
    /// Bytes that do not fit are dropped, newest first, and counted in the
    /// returned value: the producer never blocks and never overwrites
    /// unread data.
    pub fn write(&mut self, data: &[u8]) -> (dropped: usize)
        requires
            old(self).wf(),
        ensures
            final(self).wf(),
            final(self).model() == old(self).model(),
            final(self).queue() == old(self).queue() + data@.take(
                fit_len(old(self).queue().len() as int, data@.len() as int),
            ),
            dropped == data@.len() - fit_len(old(self).queue().len() as int, data@.len() as int),
    {
        let ghost q0 = self.queue();
        let mut i: usize = 0;
        let mut dropped: usize = 0;
        while i < data.len()
            invariant
                old(self).wf(),
                self.wf(),
                self.model() == old(self).model(),
                q0 == old(self).queue(),
                i <= data@.len(),
                self.queue() =~= q0 + data@.take(fit_len(q0.len() as int, i as int)),
                dropped == i - fit_len(q0.len() as int, i as int),
            decreases data@.len() - i,
        {
            let ok = rb_enqueue(&mut self.rb, data[i]);
            proof {
                let fit_i = fit_len(q0.len() as int, i as int);
                let fit_j = fit_len(q0.len() as int, i as int + 1);
                if q0.len() + fit_i < QUEUE_CAPACITY {
                    assert(fit_j == fit_i + 1);
                    assert(q0 + data@.take(fit_j) =~= (q0 + data@.take(fit_i)).push(
                        data@[i as int],
                    ));
                } else {
                    assert(fit_j == fit_i);
                }
            }
            if !ok {
                dropped = dropped + 1;
            }
            i = i + 1;
        }
        proof {
            assert(data@.take(data@.len() as int) =~= data@);
        }
        dropped
    }

    /// Drains every queued byte and runs the framing state machine over
    /// them in arrival order. When a payload byte would run past
    /// `MSG_SIZE`, parsing stops with `PayloadOverflow`: the state returns
    /// to `Wait` (so the next frame start resynchronizes), the faulting
    /// byte is consumed, and the bytes after it stay queued.
    pub fn process(&mut self) -> (r: Result<(), Error>)
        requires
            old(self).wf(),
        ensures
            final(self).wf(),
            run(old(self).model(), old(self).queue()) is Some ==> {
                &&& r is Ok
                &&& final(self).model() == run(old(self).model(), old(self).queue())->0
                &&& final(self).queue().len() == 0
            },
            run(old(self).model(), old(self).queue()) is None ==> {
                &&& r == Err::<(), Error>(Error::PayloadOverflow)
                &&& exists|i: int|
                    {
                        &&& 0 <= i < old(self).queue().len()
                        &&& run(old(self).model(), #[trigger] old(self).queue().take(i)) is Some
                        &&& step(
                            run(old(self).model(), old(self).queue().take(i))->0,
                            old(self).queue()[i],
                        ) is None
                        &&& final(self).model() == recovered(
                            run(old(self).model(), old(self).queue().take(i))->0,
                        )
                        &&& final(self).queue() == old(self).queue().skip(i + 1)
                    }
            },
    {
        let ghost m0 = old(self).model();
        let ghost q0 = old(self).queue();
        let ghost mut taken: int = 0;
        loop
            invariant
                self.wf(),
                m0 == old(self).model(),
                q0 == old(self).queue(),
                0 <= taken <= q0.len(),
                run(m0, q0.take(taken)) == Some(self.model()),
                self.queue() =~= q0.skip(taken),
            decreases q0.len() - taken,
        {
            let ghost m_prev = self.model();
            let next = rb_dequeue(&mut self.rb);
            match next {
                Option::None => {
                    proof {
                        assert(taken == q0.len());
                        assert(q0.take(taken) =~= q0);
                    }
                    return Ok(());
                },
                Option::Some(byte) => {
                    proof {
                        assert(byte == q0.skip(taken)[0]);
                        assert(byte == q0[taken]);
                        assert(q0.skip(taken).drop_first() =~= q0.skip(taken + 1));
                    }
                    if byte == STX {
                        let idx = self.msg_idx;
                        self.msg_state = MessageState::Init;
                        let slot = &mut self.msg_pool[idx];
                        slot.payload_idx = 0;
                        proof {
                            assert(step(m_prev, byte)->0 =~~= self.model());
                        }
                    } else if byte == ETX {
                        if self.msg_state != MessageState::Wait {
                            self.msg_state = MessageState::Wait;
                            self.msg_idx = if self.msg_idx + 1 == MSG_COUNT {
                                0
                            } else {
                                self.msg_idx + 1
                            };
                        }
                        proof {
                            assert(step(m_prev, byte)->0 =~~= self.model());
                        }
                    } else if byte == DELIM {
                        match self.msg_state {
                            MessageState::Wait => {
                            },
                            MessageState::Init => {
                            },
                            MessageState::Type => {
                                self.msg_state = MessageState::Payload;
                            },
                            MessageState::Payload => {
                                let idx = self.msg_idx;
                                let pidx = self.msg_pool[idx].payload_idx;
                                if pidx < MSG_SIZE {
                                    let slot = &mut self.msg_pool[idx];
                                    slot.payload[pidx] = byte;
                                    slot.payload_idx = pidx + 1;
                                } else {
                                    self.msg_state = MessageState::Wait;
                                    proof {
                                        assert(step(m_prev, byte) is None);
                                        assert(self.model() =~~= recovered(m_prev));
                                        assert(q0 =~= q0.take(taken) + q0.skip(taken));
                                        lemma_run_concat(m0, q0.take(taken), q0.skip(taken));
                                        assert(run(m0, q0) is None);
                                    }
                                    return Err(Error::PayloadOverflow);
                                }
                            },
                        }
                        proof {
                            assert(step(m_prev, byte)->0 =~~= self.model());
                        }
                    } else {
                        match self.msg_state {
                            MessageState::Wait => {
                            },
                            MessageState::Init => {
                                self.msg_state = MessageState::Type;
                            },
                            MessageState::Type => {
                                self.determine_type(byte);
                            },
                            MessageState::Payload => {
                                let idx = self.msg_idx;
                                let pidx = self.msg_pool[idx].payload_idx;
                                if pidx < MSG_SIZE {
                                    let slot = &mut self.msg_pool[idx];
                                    slot.payload[pidx] = byte;
                                    slot.payload_idx = pidx + 1;
                                } else {
                                    self.msg_state = MessageState::Wait;
                                    proof {
                                        assert(step(m_prev, byte) is None);
                                        assert(self.model() =~~= recovered(m_prev));
                                        assert(q0 =~= q0.take(taken) + q0.skip(taken));
                                        lemma_run_concat(m0, q0.take(taken), q0.skip(taken));
                                        assert(run(m0, q0) is None);
                                    }
                                    return Err(Error::PayloadOverflow);
                                }
                            },
                        }
                        proof {
                            assert(step(m_prev, byte)->0 =~~= self.model());
                        }
                    }
                    proof {
                        taken = taken + 1;
                        assert(q0.take(taken) =~= q0.take(taken - 1).push(q0[taken - 1]));
                        lemma_run_snoc(m0, q0.take(taken - 1), q0[taken - 1]);
                    }
                },
            }
        }
    }

    /// Maps a type byte to the current slot's tag, exactly as
    /// `msg_type_of` says.
    fn determine_type(&mut self, type_byte: u8)
        requires
            old(self).wf(),
            type_byte != STX,
            type_byte != ETX,
            type_byte != DELIM,
        ensures
            final(self).wf(),
            final(self).model() == (ParseModel {
                pool: old(self).model().pool.update(
                    old(self).model().idx,
                    MsgModel {
                        msg_type: msg_type_of(type_byte),
                        ..old(self).model().pool[old(self).model().idx]
                    },
                ),
                ..old(self).model()
            }),
            final(self).queue() == old(self).queue(),
    {
        let idx = self.msg_idx;
        let tag = if type_byte == 78u8 {
            MessageType::Notification
        } else if type_byte == 87u8 {
            MessageType::Weather
        } else if type_byte == 68u8 {
            MessageType::Date
        } else if type_byte == 77u8 {
            MessageType::Music
        } else {
            MessageType::Unknown
        };
        let slot = &mut self.msg_pool[idx];
        slot.msg_type = tag;
        proof {
            assert(self.model() =~~= (ParseModel {
                pool: old(self).model().pool.update(
                    old(self).model().idx,
                    MsgModel {
                        msg_type: msg_type_of(type_byte),
                        ..old(self).model().pool[old(self).model().idx]
                    },
                ),
                ..old(self).model()
            }));
        }
    }

    /// Drains every queued byte without parsing and hands them back in
    /// arrival order: the diagnostic sink's destructive snapshot, which the
    /// caller emits to its trace output. Must not race `process` on the
    /// same queue; running it in a critical section is the caller's
    /// obligation.
    pub fn drain_rb(&mut self) -> (r: Vec<u8>)
        requires
            old(self).wf(),
        ensures
            final(self).wf(),
            final(self).model() == old(self).model(),
            r@ == old(self).queue(),
            final(self).queue().len() == 0,
    {
        let ghost q0 = self.queue();
        let mut out: Vec<u8> = Vec::new();
        loop
            invariant
                self.wf(),
                self.model() == old(self).model(),
                q0 == old(self).queue(),
                out@ + self.queue() =~= q0,
            decreases self.queue().len(),
        {
            match rb_dequeue(&mut self.rb) {
                Option::Some(b) => {
                    out.push(b);
                    proof {
                        assert(out@ + self.queue() =~= q0);
                    }
                },
                Option::None => {
                    proof {
                        assert(out@ =~= q0);
                    }
                    return out;
                },
            }
        }
    }

    /// Read-only access to one pool slot. An out-of-range index is a
    /// programming error: callers stay below `MSG_COUNT`.
    pub fn peek_message(&self, index: usize) -> (r: &Message)
        requires
            self.wf(),
            index < MSG_COUNT,
        ensures
            r.wf(),
            r.model() == self.model().pool[index as int],
    {
        &self.msg_pool[index]
    }

    /// The round-robin cursor: the slot the next completed frame fills.
    pub fn msg_count(&self) -> (r: usize)
        ensures
            r == self.model().idx,
    {
        self.msg_idx
    }
}

} // verus!
