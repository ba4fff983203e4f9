//! What becomes of a packetised stream's packets: the timestamps that they carry, the payload
//! that they add to an access unit, and the windows that they close.

use vstd::prelude::*;

use super::pes::{
    keeps_payload, lemma_timestamp_round_trip, low_byte, shifted, stamp_bytes, stamp_part,
    starts_packet, stream_byte, timestamp, PayloadKind, PesState, StateView, WindowMark,
};

verus! {

/// A stream after bytes of its payload in one transport packet, of which there are `left`
/// with them: the state, whether a variable-length packet is about to be closed, how many
/// access units were completed, and the windows that were closed.
pub struct Passed {
    pub state: StateView,
    pub closing: bool,
    pub complete: nat,
    pub marks: Seq<WindowMark>,
}

/// What one byte of its payload does to a stream.
#[verifier::opaque]
pub open spec fn byte_passed(s: StateView, closing: bool, left: u8, b: u8) -> (
    StateView,
    bool,
    bool,
    Option<WindowMark>,
) {
    stream_byte(s, closing, left, b)
}

/// A stream after bytes.
pub open spec fn pes_run(s: StateView, closing: bool, left: int, bytes: Seq<u8>) -> Passed
    decreases bytes.len(),
{
    if bytes.len() == 0 {
        Passed { state: s, closing, complete: 0, marks: Seq::empty() }
    } else {
        let p = pes_run(s, closing, left, bytes.drop_last());
        let (state, closing2, complete, mark) = byte_passed(
            p.state,
            p.closing,
            (left - bytes.len()) as u8,
            bytes.last(),
        );
        Passed {
            state,
            closing: closing2,
            complete: if complete {
                p.complete + 1
            } else {
                p.complete
            },
            marks: match mark {
                Some(m) => p.marks.push(m),
                None => p.marks,
            },
        }
    }
}

#[verifier::rlimit(50)]
proof fn lemma_run_concat(s: StateView, closing: bool, left: int, a: Seq<u8>, b: Seq<u8>)
    ensures
        ({
            let p = pes_run(s, closing, left, a);
            let q = pes_run(p.state, p.closing, left - a.len(), b);
            let r = pes_run(s, closing, left, a + b);
            &&& r.state == q.state
            &&& r.closing == q.closing
            &&& r.complete == p.complete + q.complete
            &&& r.marks == p.marks + q.marks
        }),
    decreases b.len(),
{
    let p = pes_run(s, closing, left, a);
    if b.len() == 0 {
        assert(a + b =~= a);
        assert(p.marks + Seq::<WindowMark>::empty() =~= p.marks);
    } else {
        lemma_run_concat(s, closing, left, a, b.drop_last());
        assert((a + b).drop_last() =~= a + b.drop_last());
        let q = pes_run(p.state, p.closing, left - a.len(), b.drop_last());
        let (_, _, _, mark) = byte_passed(
            q.state,
            q.closing,
            (left - (a + b).len()) as u8,
            b.last(),
        );
        if let Some(m) = mark {
            assert((p.marks + q.marks).push(m) =~= p.marks + q.marks.push(m));
        }
    }
}

proof fn lemma_run_one(s: StateView, closing: bool, left: int, b: u8)
    ensures
        ({
            let r = pes_run(s, closing, left, seq![b]);
            let (state, closing2, complete, mark) = byte_passed(s, closing, (left - 1) as u8, b);
            &&& r.state == state
            &&& r.closing == closing2
            &&& r.complete == (if complete {
                1nat
            } else {
                0nat
            })
            &&& mark is Some ==> r.marks == seq![mark->Some_0]
            &&& mark is None ==> r.marks == Seq::<WindowMark>::empty()
        }),
{
    let one = seq![b];
    assert(one.drop_last() =~= Seq::<u8>::empty());
    assert(pes_run(s, closing, left, one.drop_last()) == (Passed {
        state: s,
        closing,
        complete: 0,
        marks: Seq::empty(),
    }));
    let mark = byte_passed(s, closing, (left - 1) as u8, b).3;
    if let Some(m) = mark {
        assert(Seq::<WindowMark>::empty().push(m) =~= seq![m]);
    }
}

/// The number of four bytes.
spec fn word(a: u8, b: u8, c: u8, e: u8) -> u32 {
    (a * 0x100_0000 + b * 0x1_0000 + c * 0x100 + e) as u32
}

proof fn lemma_word(a: u8, b: u8, c: u8, e: u8, f: u8)
    ensures
        shifted(word(a, b, c, e), f) == word(b, c, e, f),
        low_byte(word(a, b, c, e)) == e,
        forall|kind: PayloadKind| #[trigger]
            starts_packet(kind, word(a, b, c, e)) ==> a == 0 && b == 0 && c == 1 && e >= 0xBD,
        word(a, b, c, e) % 0x1_0000 == c * 0x100 + e,
{
    let n = a * 0x100_0000 + b * 0x1_0000 + c * 0x100 + e;
    assert(0 <= n <= u32::MAX);
    assert(n % 0x100_0000 == b * 0x1_0000 + c * 0x100 + e);
    assert(n % 0x100 == e);
    assert(n % 0x1_0000 == c * 0x100 + e);
}

/// Whether a state is another but for the last four bytes, which are these.
spec fn is_with(c: PesState, d: PesState, w: (u8, u8, u8, u8)) -> bool {
    c == (PesState { parse: word(w.0, w.1, w.2, w.3), ..d })
}

/// Whether a stream waits for the start of a packet.
pub open spec fn is_waiting(c: PesState) -> bool {
    &&& !c.transfer_state
    &&& c.packet_length_parse == 0
    &&& c.packet_parse == 0
    &&& c.pts_parse == 0
    &&& c.dts_parse == 0
    &&& c.pes_header_length == 0
    &&& !c.packet_length_variable
    &&& !c.copying
}

/// Whether an id is that of a packet of a stream of a kind: a video stream's is one of
/// sixteen, an audio stream's one of thirty-two or private, and the extended one is any
/// stream's.
pub open spec fn is_id_of(kind: PayloadKind, id: u8) -> bool {
    match kind {
        PayloadKind::Video => 0xE0 <= id <= 0xEF || id == 0xFD,
        PayloadKind::Audio => id == 0xBD || 0xC0 <= id <= 0xDF || id == 0xFA || id == 0xFD,
        _ => id == 0xFA || id == 0xFD || id == 0xBD || 0xE0 <= id <= 0xEF,
    }
}

proof fn lemma_idle_step(s: StateView, closing: bool, left: u8, w: (u8, u8, u8, u8), b: u8)
    requires
        is_with(s.core, s.core, w),
        is_waiting(s.core),
        b < 0xBD,
    ensures
        byte_passed(s, closing, left, b) == (
            StateView {
                core: PesState { parse: word(w.1, w.2, w.3, b), ..s.core },
                ..s
            },
            closing,
            false,
            None::<WindowMark>,
        ),
{
    reveal(byte_passed);
    lemma_word(w.0, w.1, w.2, w.3, b);
    lemma_word(w.1, w.2, w.3, b, 0);
}

proof fn lemma_start_step(s: StateView, closing: bool, left: u8, a: u8, id: u8)
    requires
        is_with(s.core, s.core, (a, 0u8, 0u8, 1u8)),
        is_waiting(s.core),
        is_id_of(s.core.stream_kind, id),
    ensures
        byte_passed(s, closing, left, id) == (
            StateView {
                core: PesState { parse: word(0, 0, 1, id), packet_length_parse: 2, ..s.core },
                ..s
            },
            closing,
            false,
            None::<WindowMark>,
        ),
{
    reveal(byte_passed);
    lemma_word(a, 0, 0, 1, id);
    assert(word(0, 0, 1, id) == 0x100 + id);
}

#[verifier::rlimit(50)]
proof fn lemma_length_steps(s: StateView, closing: bool, left: u8, id: u8, hi: u8, lo: u8)
    requires
        is_with(s.core, s.core, (0u8, 0u8, 1u8, id)),
        !s.core.transfer_state,
        s.core.packet_length_parse == 2,
        !s.core.packet_length_variable,
        hi * 0x100 + lo > 0,
    ensures
        ({
            let (t, closing2, complete, mark) = byte_passed(s, closing, left, hi);
            &&& t == (StateView {
                core: PesState { parse: word(0, 1, id, hi), packet_length_parse: 1, ..s.core },
                ..s
            })
            &&& closing2 == closing && !complete && mark is None
        }),
{
    reveal(byte_passed);
    lemma_word(0, 0, 1, id, hi);
    lemma_word(0, 1, id, hi, 0);
}

#[verifier::rlimit(50)]
proof fn lemma_second_length_step(s: StateView, closing: bool, left: u8, id: u8, hi: u8, lo: u8)
    requires
        is_with(s.core, s.core, (0u8, 1u8, id, hi)),
        !s.core.transfer_state,
        s.core.packet_length_parse == 1,
        !s.core.packet_length_variable,
        hi * 0x100 + lo > 0,
    ensures
        ({
            let (t, closing2, complete, mark) = byte_passed(s, closing, left, lo);
            &&& t == (StateView {
                core: PesState {
                    parse: word(1, id, hi, lo),
                    packet_length_parse: 0,
                    packet_length: (hi * 0x100 + lo) as i32,
                    packet_parse: 3,
                    ..s.core
                },
                ..s
            })
            &&& closing2 == closing && !complete && mark is None
        }),
{
    reveal(byte_passed);
    lemma_word(0, 1, id, hi, lo);
    lemma_word(1, id, hi, lo, 0);
}

#[verifier::rlimit(50)]
proof fn lemma_start_code(s: StateView, closing: bool, left: int, id: u8)
    requires
        is_waiting(s.core),
        is_id_of(s.core.stream_kind, id),
    ensures
        ({
            let r = pes_run(s, closing, left, seq![0u8] + seq![0u8] + seq![1u8] + seq![id]);
            &&& r.state == (StateView {
                core: PesState { parse: word(0, 0, 1, id), packet_length_parse: 2, ..s.core },
                ..s
            })
            &&& r.closing == closing
            &&& r.complete == 0
            &&& r.marks == Seq::<WindowMark>::empty()
        }),
{
    let (p0, p1, p2, p3) = (
        (s.core.parse / 0x100_0000) as u8,
        (s.core.parse / 0x1_0000 % 0x100) as u8,
        (s.core.parse / 0x100 % 0x100) as u8,
        (s.core.parse % 0x100) as u8,
    );
    assert(s.core.parse == word(p0, p1, p2, p3)) by {
        let n = s.core.parse as int;
        assert(n == n / 0x100_0000 * 0x100_0000 + n / 0x1_0000 % 0x100 * 0x1_0000 + n / 0x100
            % 0x100 * 0x100 + n % 0x100) by (nonlinear_arith)
            requires
                0 <= n,
        ;
    }
    let b1 = seq![0u8];
    let b2 = b1 + seq![0u8];
    let b3 = b2 + seq![1u8];
    let b4 = b3 + seq![id];
    lemma_run_one(s, closing, left, 0u8);
    lemma_idle_step(s, closing, (left - 1) as u8, (p0, p1, p2, p3), 0u8);
    let r1 = pes_run(s, closing, left, b1);
    lemma_run_concat(s, closing, left, b1, seq![0u8]);
    lemma_run_one(r1.state, closing, left - 1, 0u8);
    lemma_idle_step(r1.state, closing, (left - 1 - 1) as u8, (p1, p2, p3, 0u8), 0u8);
    let r2 = pes_run(s, closing, left, b2);
    lemma_run_concat(s, closing, left, b2, seq![1u8]);
    lemma_run_one(r2.state, closing, left - 2, 1u8);
    lemma_idle_step(r2.state, closing, (left - 2 - 1) as u8, (p2, p3, 0u8, 0u8), 1u8);
    let r3 = pes_run(s, closing, left, b3);
    lemma_run_concat(s, closing, left, b3, seq![id]);
    lemma_run_one(r3.state, closing, left - 3, id);
    lemma_start_step(r3.state, closing, (left - 3 - 1) as u8, p3, id);
    assert(pes_run(s, closing, left, b4).marks =~= Seq::<WindowMark>::empty());
}

/// The start of a packet, and its length.
#[verifier::rlimit(50)]
proof fn lemma_start(s: StateView, closing: bool, left: int, id: u8, length: u16)
    requires
        is_waiting(s.core),
        is_id_of(s.core.stream_kind, id),
        length > 0,
    ensures
        ({
            let r = pes_run(
                s,
                closing,
                left,
                seq![0u8, 0u8, 1u8, id, (length / 256) as u8, (length % 256) as u8],
            );
            &&& r.state.payload == s.payload
            &&& r.state.stream_tag == s.stream_tag
            &&& is_with(
                r.state.core,
                PesState {
                    packet_length: length as i32,
                    packet_parse: 3,
                    ..s.core
                },
                (1u8, id, (length / 256) as u8, (length % 256) as u8),
            )
            &&& r.closing == closing
            &&& r.complete == 0
            &&& r.marks == Seq::<WindowMark>::empty()
        }),
{
    let hi = (length / 256) as u8;
    let lo = (length % 256) as u8;
    assert(hi * 0x100 + lo == length);
    let b4 = seq![0u8] + seq![0u8] + seq![1u8] + seq![id];
    let b5 = b4 + seq![hi];
    let b6 = b5 + seq![lo];
    assert(b6 =~= seq![0u8, 0u8, 1u8, id, hi, lo]);
    lemma_start_code(s, closing, left, id);
    let r4 = pes_run(s, closing, left, b4);
    lemma_run_concat(s, closing, left, b4, seq![hi]);
    lemma_run_one(r4.state, closing, left - 4, hi);
    lemma_length_steps(r4.state, closing, (left - 4 - 1) as u8, id, hi, lo);
    let r5 = pes_run(s, closing, left, b5);
    lemma_run_concat(s, closing, left, b5, seq![lo]);
    lemma_run_one(r5.state, closing, left - 5, lo);
    lemma_second_length_step(r5.state, closing, (left - 5 - 1) as u8, id, hi, lo);
    let r6 = pes_run(s, closing, left, b6);
    assert(r6.marks =~= Seq::<WindowMark>::empty());
}

/// Whether a stream is in the header of a packet, before the payload.
spec fn in_header(c: PesState) -> bool {
    !c.transfer_state && c.packet_length_parse == 0 && c.packet_length >= 1
}

#[verifier::rlimit(50)]
proof fn lemma_prefix_step(s: StateView, closing: bool, left: u8, w: (u8, u8, u8, u8), b: u8)
    requires
        is_with(s.core, s.core, w),
        in_header(s.core),
        s.core.packet_parse == 3 || s.core.packet_parse == 2,
        !(w.1 == 0 && w.2 == 0 && w.3 == 1),
    ensures
        byte_passed(s, closing, left, b) == (
            StateView {
                core: PesState {
                    parse: word(w.1, w.2, w.3, b),
                    packet_length: (s.core.packet_length - 1) as i32,
                    packet_parse: (s.core.packet_parse - 1) as u8,
                    pes_header_flags: if s.core.packet_parse == 2 {
                        b
                    } else {
                        s.core.pes_header_flags
                    },
                    ..s.core
                },
                ..s
            },
            closing,
            false,
            None::<WindowMark>,
        ),
{
    reveal(byte_passed);
    lemma_word(w.0, w.1, w.2, w.3, b);
    lemma_word(w.1, w.2, w.3, b, 0);
}

#[verifier::rlimit(50)]
proof fn lemma_header_length_step(
    s: StateView,
    closing: bool,
    left: u8,
    w: (u8, u8, u8, u8),
    b: u8,
)
    requires
        is_with(s.core, s.core, w),
        in_header(s.core),
        s.core.packet_parse == 1,
        s.core.pts_parse == 0,
        s.core.dts_parse == 0,
        b > 0,
        !(w.1 == 0 && w.2 == 0 && w.3 == 1),
    ensures
        byte_passed(s, closing, left, b) == (
            StateView {
                core: PesState {
                    parse: word(w.1, w.2, w.3, b),
                    packet_length: (s.core.packet_length - 1) as i32,
                    packet_parse: 0,
                    pes_header_length: b,
                    pts_parse: if s.core.pes_header_flags / 64 == 2 {
                        5
                    } else {
                        0
                    },
                    dts_parse: if s.core.pes_header_flags / 64 == 3 {
                        10
                    } else {
                        0
                    },
                    ..s.core
                },
                ..s
            },
            closing,
            false,
            None::<WindowMark>,
        ),
{
    reveal(byte_passed);
    lemma_word(w.0, w.1, w.2, w.3, b);
    lemma_word(w.1, w.2, w.3, b, 0);
}

/// The three bytes before the timestamps.
#[verifier::rlimit(50)]
proof fn lemma_prefix(
    s: StateView,
    closing: bool,
    left: int,
    w: (u8, u8, u8, u8),
    first: u8,
    flags: u8,
    header: u8,
)
    requires
        is_with(s.core, s.core, w),
        !s.core.transfer_state,
        s.core.packet_length_parse == 0,
        s.core.packet_parse == 3,
        s.core.pts_parse == 0,
        s.core.dts_parse == 0,
        s.core.packet_length >= 3,
        w.0 == 1,
        w.1 >= 2,
        flags / 64 == 2 || flags / 64 == 3,
        header > 0,
        first >= 2,
    ensures
        ({
            let r = pes_run(s, closing, left, seq![first, flags, header]);
            &&& r.state.payload == s.payload
            &&& r.state.stream_tag == s.stream_tag
            &&& is_with(
                r.state.core,
                PesState {
                    packet_length: (s.core.packet_length - 3) as i32,
                    packet_parse: 0,
                    pes_header_flags: flags,
                    pes_header_length: header,
                    pts_parse: if flags / 64 == 2 {
                        5
                    } else {
                        0
                    },
                    dts_parse: if flags / 64 == 3 {
                        10
                    } else {
                        0
                    },
                    ..s.core
                },
                (w.3, first, flags, header),
            )
            &&& r.closing == closing
            &&& r.complete == 0
            &&& r.marks == Seq::<WindowMark>::empty()
        }),
{
    let b1 = seq![first];
    let b2 = b1 + seq![flags];
    let b3 = b2 + seq![header];
    assert(b3 =~= seq![first, flags, header]);
    lemma_run_one(s, closing, left, first);
    lemma_prefix_step(s, closing, (left - 1) as u8, w, first);
    let r1 = pes_run(s, closing, left, b1);
    lemma_run_concat(s, closing, left, b1, seq![flags]);
    lemma_run_one(r1.state, closing, left - 1, flags);
    lemma_prefix_step(r1.state, closing, (left - 1 - 1) as u8, (w.1, w.2, w.3, first), flags);
    let r2 = pes_run(s, closing, left, b2);
    lemma_run_concat(s, closing, left, b2, seq![header]);
    lemma_run_one(r2.state, closing, left - 2, header);
    lemma_header_length_step(
        r2.state,
        closing,
        (left - 2 - 1) as u8,
        (w.2, w.3, first, flags),
        header,
    );
    let r3 = pes_run(s, closing, left, b3);
    assert(r3.marks =~= Seq::<WindowMark>::empty());
}

/// The part of a timestamp in one of its bytes.
spec fn parts(b: Seq<u8>, n: int) -> int
    decreases n,
{
    if n <= 0 {
        0
    } else {
        parts(b, n - 1) + stamp_part((5 - n) as u8, b[n - 1] as int)
    }
}

proof fn lemma_parts(b: Seq<u8>, n: int)
    requires
        0 <= n <= 5,
        b.len() == 5,
    ensures
        parts(b, 5) == timestamp(b),
        0 <= parts(b, n) < 0x2_0000_0000,
{
    reveal_with_fuel(parts, 6);
}

/// Whether the bytes of a timestamp never look like the start of a packet: its third and its
/// fifth are odd.
spec fn has_markers(b: Seq<u8>) -> bool {
    b.len() == 5 && b[0] >= 2 && b[2] % 2 == 1 && b[4] % 2 == 1
}

proof fn lemma_stamp_markers(t: int)
    requires
        0 <= t < 0x2_0000_0000,
    ensures
        has_markers(stamp_bytes(t)),
{
    let a = t / 0x4000_0000;
    assert(0 <= a < 8);
    let c = t / 0x8000 % 0x80;
    let e = t % 0x80;
    assert((c * 2 + 1) % 2 == 1);
    assert((e * 2 + 1) % 2 == 1);
}

/// The last four bytes after `n` bytes of a timestamp.
spec fn tail_of(w: (u8, u8, u8, u8), b: Seq<u8>, n: int) -> (u8, u8, u8, u8)
    decreases n,
{
    if n <= 0 {
        w
    } else {
        let v = tail_of(w, b, n - 1);
        (v.1, v.2, v.3, b[n - 1])
    }
}

proof fn lemma_tail(w: (u8, u8, u8, u8), b: Seq<u8>, n: int)
    requires
        0 <= n <= b.len(),
    ensures
        n >= 1 ==> tail_of(w, b, n).3 == b[n - 1],
        n >= 2 ==> tail_of(w, b, n).2 == b[n - 2],
        n >= 3 ==> tail_of(w, b, n).1 == b[n - 3],
        n == 0 ==> tail_of(w, b, n) == w,
        n == 1 ==> tail_of(w, b, n).2 == w.3 && tail_of(w, b, n).1 == w.2,
        n == 2 ==> tail_of(w, b, n).1 == w.3,
    decreases n,
{
    if n > 0 {
        lemma_tail(w, b, n - 1);
    }
}

#[verifier::rlimit(50)]
proof fn lemma_pts_step(s: StateView, closing: bool, left: u8, w: (u8, u8, u8, u8), b: u8)
    requires
        is_with(s.core, s.core, w),
        in_header(s.core),
        s.core.packet_parse == 0,
        2 <= s.core.pts_parse <= 5,
        s.core.pes_header_length >= 1,
        s.core.pts_parse < 5 ==> 0 <= s.core.pts_temp < 0x2_0000_0000,
        !(w.1 == 0 && w.2 == 0 && w.3 == 1),
    ensures
        byte_passed(s, closing, left, b) == (
            StateView {
                core: PesState {
                    parse: word(w.1, w.2, w.3, b),
                    packet_length: (s.core.packet_length - 1) as i32,
                    pes_header_length: (s.core.pes_header_length - 1) as u8,
                    pts_parse: (s.core.pts_parse - 1) as u8,
                    pts_temp: ((if s.core.pts_parse == 5 {
                        0
                    } else {
                        s.core.pts_temp as int
                    }) + stamp_part((s.core.pts_parse - 1) as u8, b as int)) as i64,
                    ..s.core
                },
                ..s
            },
            closing,
            false,
            None::<WindowMark>,
        ),
{
    reveal(byte_passed);
    lemma_word(w.0, w.1, w.2, w.3, b);
    lemma_word(w.1, w.2, w.3, b, 0);
}

#[verifier::rlimit(50)]
proof fn lemma_dts_step(s: StateView, closing: bool, left: u8, w: (u8, u8, u8, u8), b: u8)
    requires
        is_with(s.core, s.core, w),
        in_header(s.core),
        s.core.packet_parse == 0,
        s.core.pts_parse == 0,
        2 <= s.core.dts_parse <= 10,
        s.core.pes_header_length >= 1,
        5 < s.core.dts_parse < 10 ==> 0 <= s.core.pts_temp < 0x2_0000_0000,
        s.core.dts_parse < 5 ==> 0 <= s.core.dts_temp < 0x2_0000_0000,
        !(w.1 == 0 && w.2 == 0 && w.3 == 1),
    ensures
        ({
            let c = s.core;
            let k = c.dts_parse;
            let pts = ((if k == 10 {
                0
            } else {
                c.pts_temp as int
            }) + stamp_part((k - 6) as u8, b as int)) as i64;
            let dts = ((if k == 5 {
                0
            } else {
                c.dts_temp as int
            }) + stamp_part((k - 1) as u8, b as int)) as i64;
            byte_passed(s, closing, left, b) == (
                StateView {
                    core: PesState {
                        parse: word(w.1, w.2, w.3, b),
                        packet_length: (c.packet_length - 1) as i32,
                        pes_header_length: (c.pes_header_length - 1) as u8,
                        dts_parse: (k - 1) as u8,
                        pts_temp: if k > 5 {
                            pts
                        } else {
                            c.pts_temp
                        },
                        pts: if k == 6 {
                            pts
                        } else {
                            c.pts
                        },
                        pts_last: if k == 6 && pts > c.pts_last {
                            pts
                        } else {
                            c.pts_last
                        },
                        dts_temp: if k <= 5 {
                            dts
                        } else {
                            c.dts_temp
                        },
                        ..c
                    },
                    ..s
                },
                closing,
                false,
                None::<WindowMark>,
            )
        }),
{
    reveal(byte_passed);
    lemma_word(w.0, w.1, w.2, w.3, b);
    lemma_word(w.1, w.2, w.3, b, 0);
}

/// A lone presentation timestamp, all but its last byte.
#[verifier::rlimit(50)]
proof fn lemma_pts_bytes(
    s: StateView,
    closing: bool,
    left: int,
    w: (u8, u8, u8, u8),
    b: Seq<u8>,
    n: int,
)
    requires
        is_with(s.core, s.core, w),
        !s.core.transfer_state,
        s.core.packet_length_parse == 0,
        s.core.packet_parse == 0,
        s.core.pts_parse == 5,
        s.core.packet_length >= 5,
        s.core.pes_header_length >= 5,
        w.1 >= 2,
        w.2 >= 2,
        w.3 >= 2,
        has_markers(b),
        0 <= n <= 4,
    ensures
        ({
            let r = pes_run(s, closing, left, b.subrange(0, n));
            &&& r.state.payload == s.payload
            &&& r.state.stream_tag == s.stream_tag
            &&& is_with(
                r.state.core,
                PesState {
                    packet_length: (s.core.packet_length - n) as i32,
                    pes_header_length: (s.core.pes_header_length - n) as u8,
                    pts_parse: (5 - n) as u8,
                    pts_temp: if n == 0 {
                        s.core.pts_temp
                    } else {
                        parts(b, n) as i64
                    },
                    ..s.core
                },
                tail_of(w, b, n),
            )
            &&& r.closing == closing
            &&& r.complete == 0
            &&& r.marks == Seq::<WindowMark>::empty()
        }),
    decreases n,
{
    let part = b.subrange(0, n);
    if n == 0 {
        assert(part =~= Seq::<u8>::empty());
    } else {
        lemma_pts_bytes(s, closing, left, w, b, n - 1);
        assert(part.drop_last() =~= b.subrange(0, n - 1));
        lemma_parts(b, n);
        lemma_parts(b, n - 1);
        lemma_tail(w, b, n - 1);
        let v = tail_of(w, b, n - 1);
        let r = pes_run(s, closing, left, b.subrange(0, n - 1));
        assert(parts(b, n) == parts(b, n - 1) + stamp_part((5 - n) as u8, b[n - 1] as int));
        lemma_pts_step(r.state, closing, (left - n) as u8, v, b[n - 1]);
    }
}

/// Two timestamps, all but the last byte: the presentation timestamp first.
#[verifier::rlimit(50)]
proof fn lemma_dts_bytes(
    s: StateView,
    closing: bool,
    left: int,
    w: (u8, u8, u8, u8),
    a: Seq<u8>,
    b: Seq<u8>,
    n: int,
)
    requires
        is_with(s.core, s.core, w),
        !s.core.transfer_state,
        s.core.packet_length_parse == 0,
        s.core.packet_parse == 0,
        s.core.pts_parse == 0,
        s.core.dts_parse == 10,
        s.core.packet_length >= 10,
        s.core.pes_header_length >= 10,
        w.1 >= 2,
        w.2 >= 2,
        w.3 >= 2,
        has_markers(a),
        has_markers(b),
        0 <= n <= 9,
    ensures
        ({
            let r = pes_run(s, closing, left, (a + b).subrange(0, n));
            let c = s.core;
            &&& r.state.payload == s.payload
            &&& r.state.stream_tag == s.stream_tag
            &&& is_with(
                r.state.core,
                PesState {
                    packet_length: (c.packet_length - n) as i32,
                    pes_header_length: (c.pes_header_length - n) as u8,
                    dts_parse: (10 - n) as u8,
                    pts_temp: if n == 0 {
                        c.pts_temp
                    } else if n <= 5 {
                        parts(a, n) as i64
                    } else {
                        parts(a, 5) as i64
                    },
                    pts: if n < 5 {
                        c.pts
                    } else {
                        parts(a, 5) as i64
                    },
                    pts_last: if n < 5 || c.pts_last >= parts(a, 5) {
                        c.pts_last
                    } else {
                        parts(a, 5) as i64
                    },
                    dts_temp: if n <= 5 {
                        c.dts_temp
                    } else {
                        parts(b, n - 5) as i64
                    },
                    ..c
                },
                tail_of(w, a + b, n),
            )
            &&& r.closing == closing
            &&& r.complete == 0
            &&& r.marks == Seq::<WindowMark>::empty()
        }),
    decreases n,
{
    let all = a + b;
    let part = all.subrange(0, n);
    if n == 0 {
        assert(part =~= Seq::<u8>::empty());
    } else {
        lemma_dts_bytes(s, closing, left, w, a, b, n - 1);
        assert(part.drop_last() =~= all.subrange(0, n - 1));
        lemma_parts(a, 5);
        let v = tail_of(w, all, n - 1);
        lemma_tail(w, all, n - 1);
        let r = pes_run(s, closing, left, all.subrange(0, n - 1));
        if n <= 5 {
            lemma_parts(a, n);
            lemma_parts(a, n - 1);
            assert(parts(a, n) == parts(a, n - 1) + stamp_part((5 - n) as u8, a[n - 1] as int));
            assert(all[n - 1] == a[n - 1]);
        } else {
            lemma_parts(b, n - 5);
            lemma_parts(b, n - 6);
            assert(parts(b, n - 5) == parts(b, n - 6) + stamp_part(
                (10 - n) as u8,
                b[n - 6] as int,
            ));
            assert(all[n - 1] == b[n - 6]);
        }
        assert(!(v.1 == 0 && v.2 == 0 && v.3 == 1));
        lemma_dts_step(r.state, closing, (left - n) as u8, v, all[n - 1]);
    }
}

/// Stuffing in a header, which is over with its last byte.
#[verifier::rlimit(50)]
proof fn lemma_stuffing(
    s: StateView,
    closing: bool,
    left: int,
    w: (u8, u8, u8, u8),
    bytes: Seq<u8>,
    n: int,
)
    requires
        is_with(s.core, s.core, w),
        !s.core.transfer_state,
        s.core.packet_length_parse == 0,
        s.core.packet_parse == 0,
        s.core.pts_parse == 0,
        s.core.dts_parse == 0,
        s.core.pes_header_length == bytes.len(),
        s.core.packet_length >= bytes.len(),
        w.1 > 0,
        w.3 % 2 == 1,
        forall|i: int| 0 <= i < bytes.len() ==> #[trigger] bytes[i] == 0xFF,
        0 <= n <= bytes.len(),
    ensures
        ({
            let r = pes_run(s, closing, left, bytes.subrange(0, n));
            &&& r.state.payload == s.payload
            &&& r.state.stream_tag == s.stream_tag
            &&& is_with(
                r.state.core,
                PesState {
                    packet_length: (s.core.packet_length - n) as i32,
                    pes_header_length: (s.core.pes_header_length - n) as u8,
                    transfer_state: n > 0 && n == bytes.len(),
                    ..s.core
                },
                tail_of(w, bytes, n),
            )
            &&& n == 1 ==> tail_of(w, bytes, n) == (w.1, w.2, w.3, 0xFFu8)
            &&& n == 2 ==> tail_of(w, bytes, n) == (w.2, w.3, 0xFFu8, 0xFFu8)
            &&& n >= 3 ==> tail_of(w, bytes, n).1 == 0xFF && tail_of(w, bytes, n).2 == 0xFF
                && tail_of(w, bytes, n).3 == 0xFF
            &&& r.closing == closing
            &&& r.complete == 0
            &&& r.marks == Seq::<WindowMark>::empty()
        }),
    decreases n,
{
    reveal(byte_passed);
    let part = bytes.subrange(0, n);
    if n == 0 {
        assert(part =~= Seq::<u8>::empty());
    } else {
        lemma_stuffing(s, closing, left, w, bytes, n - 1);
        assert(part.drop_last() =~= bytes.subrange(0, n - 1));
        let v = tail_of(w, bytes, n - 1);
        lemma_word(v.0, v.1, v.2, v.3, bytes[n - 1]);
        lemma_word(v.1, v.2, v.3, bytes[n - 1], 0);
        assert(bytes[n - 1] == 0xFF);
        assert(tail_of(w, bytes, n) == (v.1, v.2, v.3, 0xFFu8));
    }
}

/// Payload bytes that do not come to the end of the packet, nor of the transport packet.
#[verifier::rlimit(50)]
proof fn lemma_some_payload(s: StateView, closing: bool, left: int, data: Seq<u8>, n: int)
    requires
        s.core.transfer_state,
        !s.core.packet_length_variable,
        0 <= n <= data.len(),
        n < s.core.packet_length,
        n < left <= 184,
        s.core.total_bytes + data.len() <= u64::MAX,
        s.core.window_bytes + data.len() <= u64::MAX,
        s.core.transfer_length + data.len() <= u64::MAX,
    ensures
        ({
            let r = pes_run(s, closing, left, data.subrange(0, n));
            &&& r.state.core == (PesState {
                parse: r.state.core.parse,
                copying: s.core.copying || n > 0,
                packet_length: (s.core.packet_length - n) as i32,
                total_bytes: (s.core.total_bytes + n) as u64,
                window_bytes: (s.core.window_bytes + n) as u64,
                transfer_length: (s.core.transfer_length + n) as u64,
                ..s.core
            })
            &&& r.state.payload == (if keeps_payload(s.core) {
                s.payload + data.subrange(0, n)
            } else {
                s.payload
            })
            &&& r.state.stream_tag == s.stream_tag
            &&& r.closing == closing
            &&& r.complete == 0
            &&& r.marks == Seq::<WindowMark>::empty()
        }),
    decreases n,
{
    reveal(byte_passed);
    let part = data.subrange(0, n);
    if n == 0 {
        assert(part =~= Seq::<u8>::empty());
        assert(s.payload + part =~= s.payload);
    } else {
        lemma_some_payload(s, closing, left, data, n - 1);
        assert(part.drop_last() =~= data.subrange(0, n - 1));
        assert((s.payload + data.subrange(0, n - 1)).push(data[n - 1]) =~= s.payload + part);
    }
}

/// The payload of a packet of bounded length goes to its access unit byte by byte, as long as
/// it lasts: into the unit where it is kept, and into the counts in any case. With its last
/// byte the unit is complete; where the transport packet ends before that, the rest is
/// expected in the next one.
#[verifier::rlimit(50)]
pub proof fn lemma_payload_goes_to_the_unit(s: StateView, closing: bool, left: int, data: Seq<u8>)
    requires
        s.core.transfer_state,
        !s.core.packet_length_variable,
        0 < data.len() <= left <= 184,
        data.len() <= s.core.packet_length,
        data.len() == left || data.len() == s.core.packet_length,
        s.core.total_bytes + data.len() <= u64::MAX,
        s.core.window_bytes + data.len() <= u64::MAX,
        s.core.transfer_length + data.len() <= u64::MAX,
        s.core.transfer_count < u64::MAX,
    ensures
        ({
            let r = pes_run(s, closing, left, data);
            let done = data.len() == s.core.packet_length;
            let kept = !s.core.stream_initialized || s.core.stream_kind is Video
                || s.core.stream_kind is Graphics;
            &&& r.state.payload == (if kept {
                s.payload + data
            } else {
                s.payload
            })
            &&& r.state.stream_tag == s.stream_tag
            &&& r.complete == (if done {
                1nat
            } else {
                0nat
            })
            &&& r.marks.len() == 0
            &&& r.closing == closing
            &&& r.state.core == (PesState {
                parse: r.state.core.parse,
                copying: false,
                transfer_state: !done,
                transfer_count: (s.core.transfer_count + (if done {
                    1int
                } else {
                    0int
                })) as u64,
                packet_length: (s.core.packet_length - data.len()) as i32,
                total_bytes: (s.core.total_bytes + data.len()) as u64,
                window_bytes: (s.core.window_bytes + data.len()) as u64,
                transfer_length: (s.core.transfer_length + data.len()) as u64,
                ..s.core
            })
        }),
{
    reveal(byte_passed);
    let n = data.len() as int;
    lemma_some_payload(s, closing, left, data, n - 1);
    assert(data.drop_last() =~= data.subrange(0, n - 1));
    assert((s.payload + data.subrange(0, n - 1)).push(data[n - 1]) =~= s.payload + data);
}

/// One packet of a packetised stream, of bounded length: its id, its timestamps, stuffing in
/// its header, and its payload.
pub struct PesPacket {
    pub id: u8,
    /// The byte behind the length.
    pub first: u8,
    /// The low six flags, of which nothing is asked.
    pub flags: u8,
    pub pts: int,
    pub dts: Option<int>,
    pub stuffing: Seq<u8>,
    pub data: Seq<u8>,
}

/// The timestamps of a packet.
pub open spec fn stamps(p: PesPacket) -> Seq<u8> {
    match p.dts {
        Some(dts) => stamp_bytes(p.pts) + stamp_bytes(dts),
        None => stamp_bytes(p.pts),
    }
}

/// The bytes of a packet's header behind the one that counts them.
pub open spec fn header_length(p: PesPacket) -> int {
    stamps(p).len() + p.stuffing.len() as int
}

/// The length of a packet.
pub open spec fn packet_length(p: PesPacket) -> int {
    3 + header_length(p) + p.data.len()
}

/// The header of a packet.
pub open spec fn header_bytes(p: PesPacket) -> Seq<u8> {
    seq![
        0u8,
        0u8,
        1u8,
        p.id,
        (packet_length(p) / 256) as u8,
        (packet_length(p) % 256) as u8,
    ] + seq![
        p.first,
        ((if p.dts is Some {
            0xC0int
        } else {
            0x80int
        }) + p.flags) as u8,
        header_length(p) as u8,
    ] + stamps(p) + p.stuffing
}

/// Whether a packet can be written down.
pub open spec fn pes_writable(p: PesPacket) -> bool {
    &&& p.first >= 0x80
    &&& p.flags < 0x40
    &&& 0 <= p.pts < 0x2_0000_0000
    &&& p.dts is Some ==> 0 <= p.dts->Some_0 < 0x2_0000_0000
    &&& header_length(p) < 256
    &&& packet_length(p) < 0x1_0000
    &&& p.data.len() > 0
    &&& forall|i: int| 0 <= i < p.stuffing.len() ==> #[trigger] p.stuffing[i] == 0xFF
}

/// The timestamp that orders a packet: the decode timestamp, and the presentation timestamp
/// where there is none.
pub open spec fn order_stamp(p: PesPacket) -> int {
    match p.dts {
        Some(dts) => dts,
        None => p.pts,
    }
}

#[verifier::rlimit(50)]
proof fn lemma_last_stamp_byte(
    s: StateView,
    closing: bool,
    left: int,
    b: u8,
    w: (u8, u8, u8, u8),
    pts: int,
    dts: Option<int>,
)
    requires
        is_with(s.core, s.core, w),
        !s.core.transfer_state,
        s.core.packet_length_parse == 0,
        s.core.packet_parse == 0,
        s.core.packet_length >= 1,
        s.core.pes_header_length >= 1,
        !(w.1 == 0 && w.2 == 0 && w.3 == 1),
        match dts {
            None => s.core.pts_parse == 1 && s.core.dts_parse == 0 && s.core.pts_temp + stamp_part(
                0,
                b as int,
            ) == pts && 0 <= s.core.pts_temp,
            Some(t) => s.core.pts_parse == 0 && s.core.dts_parse == 1 && s.core.dts_temp
                + stamp_part(0, b as int) == t && 0 <= s.core.dts_temp && s.core.pts == pts,
        },
        0 <= pts < 0x2_0000_0000,
        dts is Some ==> 0 <= dts->Some_0 < 0x2_0000_0000,
        s.core.pts_count < u64::MAX,
    ensures
        ({
            let c = s.core;
            let (r, closing2, complete, mark) = byte_passed(s, closing, (left - 1) as u8, b);
            let t = match dts {
                Some(t) => t,
                None => pts,
            };
            &&& r.payload == s.payload
            &&& r.stream_tag == s.stream_tag
            &&& closing2 == closing
            &&& !complete
            &&& r.core.parse == word(w.1, w.2, w.3, b)
            &&& r.core.pts == pts
            &&& r.core.dts_prev == t
            &&& r.core.pts_count == c.pts_count + 1
            &&& r.core.pts_parse == 0 && r.core.dts_parse == 0
            &&& r.core.packet_parse == 0 && r.core.packet_length_parse == 0
            &&& r.core.packet_length == c.packet_length - 1
            &&& r.core.pes_header_length == c.pes_header_length - 1
            &&& r.core.transfer_state == (c.pes_header_length == 1)
            &&& r.core.packet_length_variable == c.packet_length_variable
            &&& r.core.copying == c.copying
            &&& r.core.total_bytes == c.total_bytes
            &&& r.core.window_bytes == c.window_bytes
            &&& r.core.window_packets == c.window_packets
            &&& r.core.transfer_length == c.transfer_length
            &&& r.core.transfer_count == c.transfer_count
            &&& r.core.stream_kind == c.stream_kind
            &&& r.core.stream_initialized == c.stream_initialized
            &&& mark == (if c.pts_count > 0 && c.stream_kind is Video {
                Some(
                    WindowMark {
                        marker: t as i64,
                        interval: (t as i64).wrapping_sub(c.dts_prev),
                        dts: if dts is Some {
                            t as i64
                        } else {
                            c.dts_temp
                        },
                    },
                )
            } else {
                None
            })
        }),
{
    reveal(byte_passed);
    lemma_word(w.0, w.1, w.2, w.3, b);
    lemma_word(w.1, w.2, w.3, b, 0);
}

/// Whether a state is one after the header of a packet, whose payload is to come.
pub open spec fn heads(before: PesState, after: PesState, p: PesPacket) -> bool {
    &&& after.transfer_state
    &&& after.packet_length == p.data.len()
    &&& !after.packet_length_variable
    &&& !after.copying
    &&& after.packet_length_parse == 0 && after.packet_parse == 0 && after.pts_parse == 0
    &&& after.dts_parse == 0 && after.pes_header_length == 0
    &&& after.pts == p.pts
    &&& after.dts_prev == order_stamp(p)
    &&& after.pts_count == before.pts_count + 1
    &&& after.total_bytes == before.total_bytes
    &&& after.window_bytes == before.window_bytes
    &&& after.window_packets == before.window_packets
    &&& after.transfer_length == before.transfer_length
    &&& after.transfer_count == before.transfer_count
    &&& after.stream_kind == before.stream_kind
    &&& after.stream_initialized == before.stream_initialized
}

/// Whether the timestamps of a packet have been read.
spec fn stamped(before: PesState, after: PesState, p: PesPacket, w: (u8, u8, u8, u8)) -> bool {
    let rest = p.stuffing.len() as int;
    &&& is_with(after, after, w)
    &&& after.transfer_state == (rest == 0)
    &&& after.packet_length == rest + p.data.len()
    &&& after.pes_header_length == rest
    &&& !after.packet_length_variable
    &&& !after.copying
    &&& after.packet_length_parse == 0 && after.packet_parse == 0 && after.pts_parse == 0
    &&& after.dts_parse == 0
    &&& after.pts == p.pts
    &&& after.dts_prev == order_stamp(p)
    &&& after.pts_count == before.pts_count + 1
    &&& after.total_bytes == before.total_bytes
    &&& after.window_bytes == before.window_bytes
    &&& after.window_packets == before.window_packets
    &&& after.transfer_length == before.transfer_length
    &&& after.transfer_count == before.transfer_count
    &&& after.stream_kind == before.stream_kind
    &&& after.stream_initialized == before.stream_initialized
}

/// Whether marks are those that the timestamps of a packet give.
spec fn marks_of(before: PesState, p: PesPacket, marks: Seq<WindowMark>) -> bool {
    if before.pts_count > 0 && before.stream_kind is Video {
        &&& marks.len() == 1
        &&& marks[0].marker == order_stamp(p)
        &&& marks[0].interval == (order_stamp(p) as i64).wrapping_sub(before.dts_prev)
        &&& p.dts is Some ==> marks[0].dts == order_stamp(p)
        &&& p.dts is None ==> marks[0].dts == before.dts_temp
    } else {
        marks.len() == 0
    }
}

#[verifier::rlimit(50)]
proof fn lemma_stamps(
    c: PesState,
    s: StateView,
    closing: bool,
    left: int,
    p: PesPacket,
    w: (u8, u8, u8, u8),
) -> (u: (u8, u8, u8, u8))
    requires
        pes_writable(p),
        is_waiting(c),
        c.pts_count < u64::MAX,
        s.core == (PesState {
            parse: word(w.0, w.1, w.2, w.3),
            packet_length: (packet_length(p) - 3) as i32,
            packet_parse: 0,
            pes_header_flags: s.core.pes_header_flags,
            pes_header_length: header_length(p) as u8,
            pts_parse: if p.dts is None {
                5
            } else {
                0
            },
            dts_parse: if p.dts is Some {
                10
            } else {
                0
            },
            ..c
        }),
        w.1 >= 2,
        w.2 >= 2,
        w.3 >= 2,
    ensures
        ({
            let r = pes_run(s, closing, left, stamps(p));
            &&& stamped(c, r.state.core, p, u)
            &&& u.1 > 0
            &&& u.3 % 2 == 1
            &&& r.state.payload == s.payload
            &&& r.state.stream_tag == s.stream_tag
            &&& r.closing == closing
            &&& r.complete == 0
            &&& marks_of(c, p, r.marks)
        }),
{
    lemma_stamp_markers(p.pts);
    lemma_timestamp_round_trip(p.pts);
    let all = stamps(p);
    let n = all.len() as int;
    let a = stamp_bytes(p.pts);
    if let Some(dts) = p.dts {
        lemma_stamp_markers(dts);
        lemma_timestamp_round_trip(dts);
        let b = stamp_bytes(dts);
        lemma_dts_bytes(s, closing, left, w, a, b, 9);
        lemma_parts(a, 5);
        lemma_parts(b, 4);
        lemma_parts(b, 5);
        assert(parts(b, 5) == parts(b, 4) + stamp_part(0, b[4] as int));
    } else {
        lemma_pts_bytes(s, closing, left, w, a, 4);
        lemma_parts(a, 4);
        lemma_parts(a, 5);
        assert(parts(a, 5) == parts(a, 4) + stamp_part(0, a[4] as int));
    }
    let most = all.subrange(0, n - 1);
    assert(all =~= most + seq![all[n - 1]]);
    let r3 = pes_run(s, closing, left, most);
    let v = tail_of(w, all, n - 1);
    lemma_tail(w, all, n - 1);
    lemma_last_stamp_byte(r3.state, closing, left - (n - 1), all[n - 1], v, p.pts, p.dts);
    lemma_run_one(r3.state, closing, left - (n - 1), all[n - 1]);
    lemma_run_concat(s, closing, left, most, seq![all[n - 1]]);
    let r4 = pes_run(s, closing, left, all);
    assert(r4.marks =~= pes_run(r3.state, closing, left - (n - 1), seq![all[n - 1]]).marks);
    (v.1, v.2, v.3, all[n - 1])
}

/// The header of a packet is found wherever a stream waits for one. It gives the timestamps
/// that it carries and the length of the payload behind it, whatever stuffing stands between;
/// no byte of it is payload. The timestamp of a video stream that has had one before closes a
/// window, which reaches back to that one.
#[verifier::rlimit(50)]
pub proof fn lemma_a_header_gives_its_timestamps(
    s: StateView,
    closing: bool,
    left: int,
    p: PesPacket,
)
    requires
        pes_writable(p),
        is_waiting(s.core),
        is_id_of(s.core.stream_kind, p.id),
        s.core.pts_count < u64::MAX,
    ensures
        ({
            let r = pes_run(s, closing, left, header_bytes(p));
            &&& heads(s.core, r.state.core, p)
            &&& r.state.payload == s.payload
            &&& r.state.stream_tag == s.stream_tag
            &&& r.closing == closing
            &&& r.complete == 0
            &&& s.core.pts_count > 0 && s.core.stream_kind is Video ==> r.marks.len() == 1
                && r.marks[0].marker == order_stamp(p) && r.marks[0].interval == (order_stamp(
                p,
            ) as i64).wrapping_sub(s.core.dts_prev) && (p.dts is Some ==> r.marks[0].dts
                == order_stamp(p)) && (p.dts is None ==> r.marks[0].dts == s.core.dts_temp)
            &&& !(s.core.pts_count > 0 && s.core.stream_kind is Video) ==> r.marks.len() == 0
        }),
{
    let length = packet_length(p);
    let header = header_length(p);
    let flags = ((if p.dts is Some {
        0xC0int
    } else {
        0x80int
    }) + p.flags) as u8;
    assert(flags / 64 == (if p.dts is Some {
        3u8
    } else {
        2u8
    }));
    let start = seq![
        0u8,
        0u8,
        1u8,
        p.id,
        (length / 256) as u8,
        (length % 256) as u8,
    ];
    let prefix = seq![p.first, flags, header as u8];
    assert(p.id >= 0xBD);
    lemma_start(s, closing, left, p.id, length as u16);
    let r1 = pes_run(s, closing, left, start);
    lemma_prefix(
        r1.state,
        closing,
        left - 6,
        (1u8, p.id, (length / 256) as u8, (length % 256) as u8),
        p.first,
        flags,
        header as u8,
    );
    lemma_run_concat(s, closing, left, start, prefix);
    let r2 = pes_run(s, closing, left, start + prefix);
    let w = ((length % 256) as u8, p.first, flags, header as u8);
    let all = stamps(p);
    let n = all.len() as int;
    let u = lemma_stamps(s.core, r2.state, closing, left - 9, p, w);
    let r4 = pes_run(r2.state, closing, left - 9, all);
    lemma_run_concat(s, closing, left, start + prefix, all);
    let r5 = pes_run(s, closing, left, start + prefix + all);
    assert(r5.state == r4.state);
    assert(r5.marks =~= r4.marks);
    lemma_run_concat(s, closing, left, start + prefix + all, p.stuffing);
    assert(start + prefix + all + p.stuffing == header_bytes(p));
    if p.stuffing.len() > 0 {
        lemma_stuffing(
            r5.state,
            closing,
            left - (9 + n),
            u,
            p.stuffing,
            p.stuffing.len() as int,
        );
        assert(p.stuffing.subrange(0, p.stuffing.len() as int) =~= p.stuffing);
        assert(pes_run(s, closing, left, header_bytes(p)).marks =~= r5.marks);
    } else {
        assert(p.stuffing =~= Seq::<u8>::empty());
        assert(r5.marks + Seq::<WindowMark>::empty() =~= r5.marks);
    }
}

} // verus!
