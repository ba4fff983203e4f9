//! What becomes of transport packets: those of the program tables, and those of streams.

use vstd::prelude::*;

use super::m2ts::{
    adaption_length_byte, header_byte, lemma_run_concat, packet_counted, run, state_of, step,
    unsynced_byte, Demux, FileView, Framing, ParserView,
};
use super::demux_laws::{framed, lemma_step_is_framed};
use super::pes::StateView;
use super::pes_laws::{byte_passed, pes_run};
use super::psi::SectionState;
use super::section_laws::{pat_run, pmt_run};

verus! {

/// A transport packet as it stands in a file: a time code, the sync byte, the header, and 184
/// bytes of payload.
pub struct Packet {
    pub time_code: Seq<u8>,
    /// Whether a payload unit starts in it.
    pub unit_start: bool,
    /// Whether it is marked as damaged.
    pub error: bool,
    /// Whether it has priority.
    pub priority: bool,
    pub pid: u16,
    /// The counter of its PID, of four bits.
    pub counter: u8,
    pub payload: Seq<u8>,
}

/// A flag as the bit of a byte.
pub open spec fn bit(flag: bool, place: int) -> int {
    if flag {
        place
    } else {
        0
    }
}

/// A packet without scrambling and without an adaptation field, as it stands in a file.
pub open spec fn packet_bytes(p: Packet) -> Seq<u8> {
    p.time_code + seq![
        0x47u8,
        flag_byte(p),
        (p.pid % 256) as u8,
        (16 + p.counter) as u8,
    ] + p.payload
}

/// Whether a packet can be written down.
pub open spec fn packet_writable(p: Packet) -> bool {
    p.time_code.len() == 4 && p.pid < 0x2000 && p.counter < 16 && p.payload.len() == 184
}

/// Whether a scan is between two packets.
pub open spec fn between_packets(d: Demux) -> bool {
    let f = d.parser.framing;
    &&& d.parser.pending is None
    &&& !f.synced
    &&& f.time_code_left == 4
    &&& f.header_left == 0
    &&& !f.adaption_next
    &&& f.adaption_left == 0
}

/// A scan within a packet of a PID, with `left` of its bytes to come.
spec fn in_packet(d: Demux, p: Packet, left: int) -> Framing {
    Framing {
        synced: left > 0,
        time_code_left: 4,
        packet_left: left as u8,
        header_left: 0,
        unit_start: p.unit_start,
        pid: p.pid,
        scrambled: false,
        adaption_next: false,
        adaption_left: 0,
        stream_present: d.file.streams.contains_key(p.pid),
        ..d.parser.framing
    }
}

/// A file with one packet more on a PID.
pub open spec fn with_packet(file: FileView, pid: u16) -> FileView {
    FileView {
        stream_states: file.stream_states.insert(
            pid,
            packet_counted(state_of(file.stream_states, pid)),
        ),
        ..file
    }
}

proof fn lemma_run_push(d: Demux, bytes: Seq<u8>, b: u8, full: bool)
    ensures
        run(d, bytes.push(b), full) == step(run(d, bytes, full), b, full),
{
    assert(bytes.push(b).drop_last() =~= bytes);
    assert(bytes.push(b).last() == b);
}

proof fn lemma_step_outside(d: Demux, b: u8, full: bool)
    requires
        d.parser.pending is None,
        !d.parser.framing.synced,
    ensures
        step(d, b, full) == (Demux {
            parser: ParserView { framing: unsynced_byte(d.parser.framing, b), ..d.parser },
            ..d
        }),
{
    reveal(step);
}

proof fn lemma_step_header(d: Demux, b: u8, full: bool)
    requires
        d.parser.pending is None,
        d.parser.framing.synced,
        d.parser.framing.header_left > 0,
    ensures
        step(d, b, full) == header_byte(d, b),
{
    reveal(step);
}

/// The byte with the flags and the top of the PID.
pub open spec fn flag_byte(p: Packet) -> u8 {
    (bit(p.error, 128) + bit(p.unit_start, 64) + bit(p.priority, 32) + p.pid / 256) as u8
}

#[verifier::rlimit(50)]
proof fn lemma_flag_byte(p: Packet)
    requires
        p.pid < 0x2000,
    ensures
        flag_byte(p) as int % 32 == p.pid / 256,
        (flag_byte(p) / 64 % 2 == 1) == p.unit_start,
        ((flag_byte(p) as int % 32 * 0x100) as u16).wrapping_add((p.pid % 256) as u8 as u16)
            == p.pid,
{
    let high = p.pid as int / 256;
    assert(0 <= high < 32);
    assert(p.pid as int == high * 256 + p.pid as int % 256);
}

#[verifier::rlimit(50)]
proof fn lemma_time_code(d: Demux, code: Seq<u8>, full: bool)
    requires
        between_packets(d),
        code.len() == 4,
    ensures
        run(d, code, full) == (Demux {
            parser: ParserView {
                framing: Framing { time_code_left: 0, ..d.parser.framing },
                ..d.parser
            },
            ..d
        }),
{
    let h0 = Seq::<u8>::empty();
    let h1 = h0.push(code[0]);
    let h2 = h1.push(code[1]);
    let h3 = h2.push(code[2]);
    assert(code =~= h3.push(code[3]));
    assert(run(d, h0, full) == d);
    lemma_run_push(d, h0, code[0], full);
    lemma_step_outside(d, code[0], full);
    lemma_run_push(d, h1, code[1], full);
    lemma_step_outside(run(d, h1, full), code[1], full);
    lemma_run_push(d, h2, code[2], full);
    lemma_step_outside(run(d, h2, full), code[2], full);
    lemma_run_push(d, h3, code[3], full);
    lemma_step_outside(run(d, h3, full), code[3], full);
}

/// A scan in the header of a packet.
spec fn with_framing(d: Demux, f: Framing) -> Demux {
    Demux { parser: ParserView { framing: f, ..d.parser }, ..d }
}

#[verifier::rlimit(50)]
proof fn lemma_flags_step(d: Demux, p: Packet, full: bool)
    requires
        p.pid < 0x2000,
        d.parser.pending is None,
        d.parser.framing.synced,
        d.parser.framing.header_left == 3,
        d.parser.framing.packet_left == 187,
    ensures
        step(d, flag_byte(p), full) == with_framing(
            d,
            Framing {
                packet_left: 186,
                header_left: 2,
                unit_start: p.unit_start,
                pid: (flag_byte(p) as int % 32 * 0x100) as u16,
                ..d.parser.framing
            },
        ),
{
    lemma_flag_byte(p);
    lemma_step_header(d, flag_byte(p), full);
}

#[verifier::rlimit(50)]
proof fn lemma_pid_step(d: Demux, p: Packet, full: bool)
    requires
        p.pid < 0x2000,
        d.parser.pending is None,
        d.parser.framing.synced,
        d.parser.framing.header_left == 2,
        d.parser.framing.packet_left == 186,
        d.parser.framing.pid == (flag_byte(p) as int % 32 * 0x100) as u16,
    ensures
        step(d, (p.pid % 256) as u8, full) == (Demux {
            file: with_packet(d.file, p.pid),
            ..with_framing(
                d,
                Framing {
                    packet_left: 185,
                    header_left: 1,
                    pid: p.pid,
                    stream_present: d.file.streams.contains_key(p.pid),
                    ..d.parser.framing
                },
            )
        }),
{
    lemma_flag_byte(p);
    lemma_step_header(d, (p.pid % 256) as u8, full);
}

#[verifier::rlimit(50)]
proof fn lemma_counter_step(d: Demux, p: Packet, full: bool)
    requires
        p.counter < 16,
        p.pid == 0 || p.pid == d.parser.framing.pmt_pid,
        d.parser.pending is None,
        d.parser.framing.synced,
        d.parser.framing.header_left == 1,
        d.parser.framing.packet_left == 185,
        d.parser.framing.pid == p.pid,
        d.parser.framing.unit_start == p.unit_start,
        !d.parser.framing.adaption_next,
    ensures
        step(d, (16 + p.counter) as u8, full) == (Demux {
            parser: ParserView {
                framing: Framing {
                    packet_left: 184,
                    header_left: 0,
                    scrambled: false,
                    ..d.parser.framing
                },
                pat: SectionState {
                    start: d.parser.pat.start || (p.unit_start && p.pid == 0),
                    ..d.parser.pat
                },
                pmt: SectionState {
                    start: d.parser.pmt.start || (p.unit_start && p.pid != 0),
                    ..d.parser.pmt
                },
                ..d.parser
            },
            ..d
        }),
{
    let b = (16 + p.counter) as u8;
    assert(b / 64 == 0 && b / 32 % 2 == 0);
    lemma_step_header(d, b, full);
}

/// A scan behind the header of a packet.
spec fn behind_header(d: Demux, p: Packet) -> Demux {
    Demux {
        parser: ParserView {
            framing: in_packet(d, p, 184),
            pat: SectionState {
                start: d.parser.pat.start || (p.unit_start && p.pid == 0),
                ..d.parser.pat
            },
            pmt: SectionState {
                start: d.parser.pmt.start || (p.unit_start && p.pid != 0),
                ..d.parser.pmt
            },
            ..d.parser
        },
        file: with_packet(d.file, p.pid),
        ..d
    }
}

#[verifier::rlimit(50)]
proof fn lemma_header_steps(d: Demux, d4: Demux, p: Packet, full: bool)
    requires
        packet_writable(p),
        between_packets(d),
        p.pid == 0 || p.pid == d.parser.framing.pmt_pid,
        d4 == with_framing(d, Framing { time_code_left: 0, ..d.parser.framing }),
    ensures
        ({
            let d5 = step(d4, 0x47u8, full);
            let d6 = step(d5, flag_byte(p), full);
            let d7 = step(d6, (p.pid % 256) as u8, full);
            step(d7, (16 + p.counter) as u8, full) == behind_header(d, p)
        }),
{
    let f = d.parser.framing;
    let d5 = step(d4, 0x47u8, full);
    lemma_step_outside(d4, 0x47u8, full);
    let f5 = Framing { synced: true, packet_left: 187, time_code_left: 4, header_left: 3, ..f };
    assert(d5 == with_framing(d, f5));
    let d6 = step(d5, flag_byte(p), full);
    lemma_flags_step(d5, p, full);
    let d7 = step(d6, (p.pid % 256) as u8, full);
    lemma_pid_step(d6, p, full);
    lemma_counter_step(d7, p, full);
    let d8 = step(d7, (16 + p.counter) as u8, full);
    assert(d8.parser.framing == in_packet(d, p, 184));
    assert(d8.file == with_packet(d.file, p.pid));
}

#[verifier::rlimit(50)]
proof fn lemma_packet_head(d: Demux, p: Packet, full: bool)
    requires
        packet_writable(p),
        between_packets(d),
        p.pid == 0 || p.pid == d.parser.framing.pmt_pid,
    ensures
        run(
            d,
            p.time_code.push(0x47u8).push(flag_byte(p)).push((p.pid % 256) as u8).push(
                (16 + p.counter) as u8,
            ),
            full,
        ) == behind_header(d, p),
{
    let h4 = p.time_code;
    let h5 = h4.push(0x47u8);
    let h6 = h5.push(flag_byte(p));
    let h7 = h6.push((p.pid % 256) as u8);
    lemma_time_code(d, h4, full);
    let d4 = run(d, h4, full);
    assert(d4 == with_framing(d, Framing { time_code_left: 0, ..d.parser.framing }));
    lemma_run_push(d, h4, 0x47u8, full);
    lemma_run_push(d, h5, flag_byte(p), full);
    lemma_run_push(d, h6, (p.pid % 256) as u8, full);
    lemma_run_push(d, h7, (16 + p.counter) as u8, full);
    lemma_header_steps(d, d4, p, full);
}

#[verifier::rlimit(50)]
proof fn lemma_table_payload(d: Demux, e: Demux, p: Packet, n: int, full: bool)
    requires
        packet_writable(p),
        between_packets(d),
        p.pid == 0 || p.pid == d.parser.framing.pmt_pid,
        e.parser.framing == in_packet(d, p, 184),
        e.parser.pending is None,
        0 <= n <= 184,
    ensures
        ({
            let bytes = p.payload.subrange(0, n);
            let r = run(e, bytes, full);
            &&& p.pid == 0 ==> {
                let (pat, table, pmt_pid) = pat_run(
                    e.parser.pat,
                    e.parser.pat_table,
                    d.parser.framing.pmt_pid,
                    bytes,
                );
                r == (Demux {
                    parser: ParserView {
                        framing: Framing { pmt_pid, ..in_packet(d, p, 184 - n) },
                        pat,
                        pat_table: table,
                        ..e.parser
                    },
                    ..e
                })
            }
            &&& p.pid != 0 ==> {
                let (pmt, tables, file) = pmt_run(
                    e.parser.pmt,
                    e.parser.pmt_tables,
                    p.pid,
                    e.file,
                    bytes,
                    full,
                );
                r == (Demux {
                    parser: ParserView {
                        framing: in_packet(d, p, 184 - n),
                        pmt,
                        pmt_tables: tables,
                        ..e.parser
                    },
                    file,
                    ..e
                })
            }
        }),
    decreases n,
{
    reveal(step);
    let bytes = p.payload.subrange(0, n);
    if n > 0 {
        lemma_table_payload(d, e, p, n - 1, full);
        assert(bytes.drop_last() =~= p.payload.subrange(0, n - 1));
        let prior = run(e, bytes.drop_last(), full);
        assert(run(e, bytes, full) == step(prior, bytes.last(), full));
        assert(184 - (n - 1) >= 1);
        assert(prior.parser.framing.synced && prior.parser.framing.pid == p.pid);
    }
}

/// A packet of the PID of the program association, or of the program map, hands all its
/// payload to that table and nothing to anything else, and counts as one packet of its PID. It
/// takes 192 bytes, whatever they are, and the next packet starts behind it. Where a unit
/// starts in it, its first byte is the pointer to a section.
#[verifier::rlimit(50)]
pub proof fn lemma_a_table_packet_goes_to_its_table(d: Demux, p: Packet, full: bool)
    requires
        packet_writable(p),
        between_packets(d),
        p.pid == 0 || p.pid == d.parser.framing.pmt_pid,
    ensures
        packet_bytes(p).len() == 192,
        ({
            let r = run(d, packet_bytes(p), full);
            &&& between_packets(r)
            &&& r.playlists == d.playlists
            &&& p.pid == 0 ==> {
                let s = d.parser.pat;
                let (pat, table, pmt_pid) = pat_run(
                    SectionState { start: s.start || p.unit_start, ..s },
                    d.parser.pat_table,
                    d.parser.framing.pmt_pid,
                    p.payload,
                );
                &&& r.parser.pat == pat
                &&& r.parser.pat_table == table
                &&& r.parser.framing.pmt_pid == pmt_pid
                &&& r.parser.pmt == d.parser.pmt
                &&& r.parser.pmt_tables == d.parser.pmt_tables
                &&& r.file == with_packet(d.file, p.pid)
            }
            &&& p.pid != 0 ==> {
                let s = d.parser.pmt;
                let (pmt, tables, file) = pmt_run(
                    SectionState { start: s.start || p.unit_start, ..s },
                    d.parser.pmt_tables,
                    p.pid,
                    with_packet(d.file, p.pid),
                    p.payload,
                    full,
                );
                &&& r.parser.pmt == pmt
                &&& r.parser.pmt_tables == tables
                &&& r.file == file
                &&& r.parser.pat == d.parser.pat
                &&& r.parser.pat_table == d.parser.pat_table
                &&& r.parser.framing.pmt_pid == d.parser.framing.pmt_pid
            }
        }),
{
    let head = p.time_code.push(0x47u8).push(flag_byte(p)).push((p.pid % 256) as u8).push(
        (16 + p.counter) as u8,
    );
    lemma_packet_head(d, p, full);
    lemma_run_concat(d, head, p.payload, full);
    assert(packet_bytes(p) =~= head + p.payload);
    assert(p.payload.subrange(0, 184) =~= p.payload);
    lemma_table_payload(d, run(d, head, full), p, 184, full);
}

// ---- streams ----

/// A packet of any PID, with the byte that says whether it is scrambled and whether it has an
/// adaptation field, as it stands in a file.
pub open spec fn controlled_bytes(p: Packet, control: u8) -> Seq<u8> {
    p.time_code.push(0x47u8).push(flag_byte(p)).push((p.pid % 256) as u8).push(control) + p.payload
}

/// A scan behind the header of a packet of a stream.
spec fn behind_control(d: Demux, p: Packet, control: u8) -> Demux {
    Demux {
        parser: ParserView {
            framing: Framing {
                scrambled: control / 64 != 0,
                adaption_next: control / 32 % 2 == 1,
                ..in_packet(d, p, 184)
            },
            ..d.parser
        },
        file: with_packet(d.file, p.pid),
        ..d
    }
}

#[verifier::rlimit(50)]
proof fn lemma_control_step(d: Demux, p: Packet, control: u8, full: bool)
    requires
        p.pid != 0,
        p.pid != d.parser.framing.pmt_pid,
        d.parser.pending is None,
        d.parser.framing.synced,
        d.parser.framing.header_left == 1,
        d.parser.framing.packet_left == 185,
        d.parser.framing.pid == p.pid,
        d.parser.framing.unit_start == p.unit_start,
        !d.parser.framing.adaption_next,
        !p.unit_start || !state_of(d.file.stream_states, p.pid).core.transfer_state,
    ensures
        step(d, control, full) == with_framing(
            d,
            Framing {
                packet_left: 184,
                header_left: 0,
                scrambled: control / 64 != 0,
                adaption_next: control / 32 % 2 == 1,
                ..d.parser.framing
            },
        ),
{
    lemma_step_header(d, control, full);
}

#[verifier::rlimit(50)]
proof fn lemma_control_head(d: Demux, p: Packet, control: u8, full: bool)
    requires
        packet_writable(p),
        between_packets(d),
        p.pid != 0,
        p.pid != d.parser.framing.pmt_pid,
        !p.unit_start || !state_of(d.file.stream_states, p.pid).core.transfer_state,
    ensures
        run(
            d,
            p.time_code.push(0x47u8).push(flag_byte(p)).push((p.pid % 256) as u8).push(control),
            full,
        ) == behind_control(d, p, control),
{
    let h4 = p.time_code;
    let h5 = h4.push(0x47u8);
    let h6 = h5.push(flag_byte(p));
    let h7 = h6.push((p.pid % 256) as u8);
    lemma_time_code(d, h4, full);
    let d4 = run(d, h4, full);
    lemma_run_push(d, h4, 0x47u8, full);
    lemma_run_push(d, h5, flag_byte(p), full);
    lemma_run_push(d, h6, (p.pid % 256) as u8, full);
    lemma_run_push(d, h7, control, full);
    let f = d.parser.framing;
    let d5 = step(d4, 0x47u8, full);
    lemma_step_outside(d4, 0x47u8, full);
    let f5 = Framing { synced: true, packet_left: 187, time_code_left: 4, header_left: 3, ..f };
    assert(d5 == with_framing(d, f5));
    let d6 = step(d5, flag_byte(p), full);
    lemma_flags_step(d5, p, full);
    let d7 = step(d6, (p.pid % 256) as u8, full);
    lemma_pid_step(d6, p, full);
    lemma_control_step(d7, p, control, full);
    let d8 = step(d7, control, full);
    assert(d8.parser.framing == behind_control(d, p, control).parser.framing);
    assert(d8.file == with_packet(d.file, p.pid));
}

/// Whether a scan is in a packet whose payload is nobody's, with `left` of its bytes to come,
/// and has otherwise stayed as it was.
spec fn passes_over(e: Demux, d: Demux, left: int) -> bool {
    let f = d.parser.framing;
    &&& d.parser == (ParserView { framing: f, ..e.parser })
    &&& d.file == e.file
    &&& d.playlists == e.playlists
    &&& framed(f)
    &&& f.synced == (left > 0)
    &&& f.packet_left == left
    &&& f.header_left == 0
    &&& f.pid == e.parser.framing.pid
    &&& f.pmt_pid == e.parser.framing.pmt_pid
    &&& f.scrambled == e.parser.framing.scrambled
    &&& f.stream_present == e.parser.framing.stream_present
    &&& f.time_code_left == 4
}

#[verifier::rlimit(50)]
proof fn lemma_passing_step(e: Demux, d: Demux, left: int, b: u8, full: bool)
    requires
        passes_over(e, d, left),
        0 < left <= 184,
        e.parser.pending is None,
        e.parser.framing.pid != 0,
        e.parser.framing.pid != e.parser.framing.pmt_pid,
        !e.parser.framing.stream_present || e.parser.framing.scrambled,
    ensures
        passes_over(e, step(d, b, full), left - 1),
{
    lemma_step_is_framed(d, b, full);
    reveal(step);
}

proof fn lemma_passing_payload(e: Demux, bytes: Seq<u8>, n: int, full: bool)
    requires
        passes_over(e, e, 184),
        bytes.len() == 184,
        0 <= n <= 184,
        e.parser.pending is None,
        e.parser.framing.pid != 0,
        e.parser.framing.pid != e.parser.framing.pmt_pid,
        !e.parser.framing.stream_present || e.parser.framing.scrambled,
    ensures
        passes_over(e, run(e, bytes.subrange(0, n), full), 184 - n),
    decreases n,
{
    if n > 0 {
        lemma_passing_payload(e, bytes, n - 1, full);
        let part = bytes.subrange(0, n);
        assert(part.drop_last() =~= bytes.subrange(0, n - 1));
        let prior = run(e, bytes.subrange(0, n - 1), full);
        lemma_passing_step(e, prior, 184 - (n - 1), bytes[n - 1], full);
        assert(run(e, part, full) == step(prior, bytes[n - 1], full));
    }
}

/// A packet of a PID without a registered stream, and a scrambled one of any stream, counts
/// as a packet of its PID and nothing else: neither its adaptation field nor its payload is
/// looked at, whatever they hold, no table, stream or playlist changes by it, and the next
/// packet starts behind it.
pub proof fn lemma_a_foreign_packet_is_passed_over(d: Demux, p: Packet, control: u8, full: bool)
    requires
        packet_writable(p),
        between_packets(d),
        p.pid != 0,
        p.pid != d.parser.framing.pmt_pid,
        !p.unit_start || !state_of(d.file.stream_states, p.pid).core.transfer_state,
        !d.file.streams.contains_key(p.pid) || control / 64 != 0,
    ensures
        ({
            let r = run(d, controlled_bytes(p, control), full);
            &&& between_packets(r)
            &&& r.file == with_packet(d.file, p.pid)
            &&& r.playlists == d.playlists
            &&& r.parser.pat == d.parser.pat
            &&& r.parser.pat_table == d.parser.pat_table
            &&& r.parser.pmt == d.parser.pmt
            &&& r.parser.pmt_tables == d.parser.pmt_tables
            &&& r.parser.framing.pmt_pid == d.parser.framing.pmt_pid
            &&& r.parser.pts_first == d.parser.pts_first
            &&& r.parser.pts_last == d.parser.pts_last
        }),
{
    let head = p.time_code.push(0x47u8).push(flag_byte(p)).push((p.pid % 256) as u8).push(control);
    lemma_control_head(d, p, control, full);
    lemma_run_concat(d, head, p.payload, full);
    let e = behind_control(d, p, control);
    assert(passes_over(e, e, 184));
    lemma_passing_payload(e, p.payload, 184, full);
    assert(p.payload.subrange(0, 184) =~= p.payload);
}

// ---- payload ----

/// A scan in a packet of a stream, past its adaptation field, with `left` of its bytes to
/// come, in which no unit has been completed and no window closed.
spec fn streaming(e: Demux, d: Demux, left: int, s: StateView, closing: bool) -> bool {
    let pid = e.parser.framing.pid;
    &&& d.parser == (ParserView {
        framing: Framing {
            synced: left > 0,
            packet_left: left as u8,
            variable_end: closing,
            ..e.parser.framing
        },
        ..e.parser
    })
    &&& d.file == (FileView {
        stream_states: e.file.stream_states.insert(pid, s),
        ..e.file
    })
    &&& d.playlists == e.playlists
}

#[verifier::rlimit(50)]
proof fn lemma_streaming_step(
    e: Demux,
    d: Demux,
    left: int,
    s: StateView,
    closing: bool,
    b: u8,
    full: bool,
)
    requires
        streaming(e, d, left, s, closing),
        0 < left <= 184,
        e.parser.pending is None,
        e.parser.framing.header_left == 0,
        !e.parser.framing.adaption_next,
        e.parser.framing.adaption_left == 0,
        e.parser.framing.pid != 0,
        e.parser.framing.pid != e.parser.framing.pmt_pid,
        e.parser.framing.stream_present,
        !e.parser.framing.scrambled,
        !byte_passed(s, closing, (left - 1) as u8, b).2,
        byte_passed(s, closing, (left - 1) as u8, b).3 is None,
    ensures
        ({
            let (t, closing2, _, _) = byte_passed(s, closing, (left - 1) as u8, b);
            streaming(e, step(d, b, full), left - 1, t, closing2)
        }),
{
    reveal(step);
    reveal(byte_passed);
    let pid = e.parser.framing.pid;
    let (t, closing2, _, _) = byte_passed(s, closing, (left - 1) as u8, b);
    assert(d.file.stream_states.insert(pid, t) =~= e.file.stream_states.insert(pid, t));
}

proof fn lemma_streaming_payload(
    e: Demux,
    left: int,
    s: StateView,
    closing: bool,
    bytes: Seq<u8>,
    full: bool,
)
    requires
        streaming(e, e, left, s, closing),
        bytes.len() <= left <= 184,
        e.parser.pending is None,
        e.parser.framing.header_left == 0,
        !e.parser.framing.adaption_next,
        e.parser.framing.adaption_left == 0,
        e.parser.framing.pid != 0,
        e.parser.framing.pid != e.parser.framing.pmt_pid,
        e.parser.framing.stream_present,
        !e.parser.framing.scrambled,
        pes_run(s, closing, left, bytes).complete == 0,
        pes_run(s, closing, left, bytes).marks.len() == 0,
    ensures
        ({
            let r = pes_run(s, closing, left, bytes);
            streaming(e, run(e, bytes, full), left - bytes.len(), r.state, r.closing)
        }),
    decreases bytes.len(),
{
    if bytes.len() > 0 {
        let less = bytes.drop_last();
        lemma_streaming_payload(e, left, s, closing, less, full);
        let q = pes_run(s, closing, left, less);
        let prior = run(e, less, full);
        lemma_streaming_step(
            e,
            prior,
            left - less.len(),
            q.state,
            q.closing,
            bytes.last(),
            full,
        );
    }
}

/// A clear packet of a registered stream hands its payload, byte by byte and all of it, to the
/// stream of its PID and to no other, as long as no unit is completed and no window closed on
/// the way; no table and no playlist changes by it.
pub proof fn lemma_a_stream_packet_goes_to_its_stream(d: Demux, p: Packet, full: bool)
    requires
        packet_writable(p),
        between_packets(d),
        p.pid != 0,
        p.pid != d.parser.framing.pmt_pid,
        d.file.streams.contains_key(p.pid),
        !p.unit_start || !state_of(d.file.stream_states, p.pid).core.transfer_state,
        ({
            let s = packet_counted(state_of(d.file.stream_states, p.pid));
            let r = pes_run(s, d.parser.framing.variable_end, 184, p.payload);
            r.complete == 0 && r.marks.len() == 0
        }),
    ensures
        ({
            let s = packet_counted(state_of(d.file.stream_states, p.pid));
            let q = pes_run(s, d.parser.framing.variable_end, 184, p.payload);
            let r = run(d, packet_bytes(p), full);
            &&& between_packets(r)
            &&& r.file == (FileView {
                stream_states: d.file.stream_states.insert(p.pid, q.state),
                ..d.file
            })
            &&& r.playlists == d.playlists
            &&& r.parser.pat == d.parser.pat
            &&& r.parser.pmt == d.parser.pmt
            &&& r.parser.pmt_tables == d.parser.pmt_tables
        }),
{
    let control = (16 + p.counter) as u8;
    assert(control / 64 == 0 && control / 32 % 2 == 0);
    let head = p.time_code.push(0x47u8).push(flag_byte(p)).push((p.pid % 256) as u8).push(control);
    assert(packet_bytes(p) =~= head + p.payload);
    lemma_control_head(d, p, control, full);
    lemma_run_concat(d, head, p.payload, full);
    let e = behind_control(d, p, control);
    let s = packet_counted(state_of(d.file.stream_states, p.pid));
    assert(e.file.stream_states.insert(p.pid, s) =~= e.file.stream_states);
    assert(streaming(e, e, 184, s, d.parser.framing.variable_end));
    lemma_streaming_payload(e, 184, s, d.parser.framing.variable_end, p.payload, full);
    let q = pes_run(s, d.parser.framing.variable_end, 184, p.payload);
    assert(e.file.stream_states.insert(p.pid, q.state) =~= d.file.stream_states.insert(
        p.pid,
        q.state,
    ));
}

/// A scan after `n` bytes of an adaptation field of `length` bytes and the byte that counts
/// them.
spec fn adapting(e: Demux, n: int, length: int) -> Demux {
    if n == 0 {
        e
    } else {
        with_framing(
            e,
            Framing {
                packet_left: (184 - n) as u8,
                adaption_next: false,
                adaption_left: (length + 1 - n) as u8,
                variable_end: true,
                ..e.parser.framing
            },
        )
    }
}

proof fn lemma_step_field_length(d: Demux, b: u8, full: bool)
    requires
        d.parser.pending is None,
        d.parser.framing.synced,
        d.parser.framing.header_left == 0,
        d.parser.framing.adaption_next,
    ensures
        step(d, b, full) == with_framing(d, adaption_length_byte(d.parser.framing, b)),
{
    reveal(step);
}

proof fn lemma_step_field(d: Demux, b: u8, full: bool)
    requires
        d.parser.pending is None,
        d.parser.framing.synced,
        d.parser.framing.header_left == 0,
        !d.parser.framing.adaption_next,
        d.parser.framing.adaption_left > 0,
        d.parser.framing.packet_left > 1,
    ensures
        step(d, b, full) == with_framing(
            d,
            Framing {
                packet_left: (d.parser.framing.packet_left - 1) as u8,
                adaption_left: (d.parser.framing.adaption_left - 1) as u8,
                ..d.parser.framing
            },
        ),
{
    reveal(step);
}

#[verifier::rlimit(50)]
proof fn lemma_adaptation(e: Demux, bytes: Seq<u8>, n: int, full: bool)
    requires
        e.parser.pending is None,
        e.parser.framing.synced,
        e.parser.framing.packet_left == 184,
        e.parser.framing.header_left == 0,
        e.parser.framing.adaption_next,
        e.parser.framing.adaption_left == 0,
        bytes.len() == 184,
        bytes[0] < 183,
        0 <= n <= 1 + bytes[0],
    ensures
        run(e, bytes.subrange(0, n), full) == adapting(e, n, bytes[0] as int),
    decreases n,
{
    if n > 0 {
        lemma_adaptation(e, bytes, n - 1, full);
        let part = bytes.subrange(0, n);
        assert(part.drop_last() =~= bytes.subrange(0, n - 1));
        let prior = adapting(e, n - 1, bytes[0] as int);
        assert(run(e, part, full) == step(prior, bytes[n - 1], full));
        if n == 1 {
            lemma_step_field_length(prior, bytes[0], full);
        } else {
            lemma_step_field(prior, bytes[n - 1], full);
        }
    } else {
        assert(bytes.subrange(0, 0) =~= Seq::<u8>::empty());
    }
}

/// An adaptation field is as long as its first byte says, and none of it is payload: a clear
/// packet of a registered stream with such a field hands what is behind it, and nothing else,
/// to the stream of its PID, as long as no unit is completed and no window closed on the way.
#[verifier::rlimit(50)]
pub proof fn lemma_an_adaptation_field_is_no_payload(d: Demux, p: Packet, full: bool)
    requires
        packet_writable(p),
        between_packets(d),
        p.pid != 0,
        p.pid != d.parser.framing.pmt_pid,
        d.file.streams.contains_key(p.pid),
        !p.unit_start || !state_of(d.file.stream_states, p.pid).core.transfer_state,
        p.payload[0] < 183,
        ({
            let s = packet_counted(state_of(d.file.stream_states, p.pid));
            let left = 183 - p.payload[0];
            let r = pes_run(s, true, left, p.payload.subrange(1 + p.payload[0], 184));
            r.complete == 0 && r.marks.len() == 0
        }),
    ensures
        ({
            let s = packet_counted(state_of(d.file.stream_states, p.pid));
            let left = 183 - p.payload[0];
            let q = pes_run(s, true, left, p.payload.subrange(1 + p.payload[0], 184));
            let r = run(d, controlled_bytes(p, (48 + p.counter) as u8), full);
            &&& between_packets(r)
            &&& r.file == (FileView {
                stream_states: d.file.stream_states.insert(p.pid, q.state),
                ..d.file
            })
            &&& r.playlists == d.playlists
        }),
{
    let control = (48 + p.counter) as u8;
    assert(control / 64 == 0 && control / 32 % 2 == 1);
    let head = p.time_code.push(0x47u8).push(flag_byte(p)).push((p.pid % 256) as u8).push(control);
    lemma_control_head(d, p, control, full);
    lemma_run_concat(d, head, p.payload, full);
    let e = behind_control(d, p, control);
    let n = 1 + p.payload[0];
    let field = p.payload.subrange(0, n);
    let rest = p.payload.subrange(n, 184);
    assert(p.payload =~= field + rest);
    lemma_run_concat(e, field, rest, full);
    lemma_adaptation(e, p.payload, n, full);
    let g = adapting(e, n, p.payload[0] as int);
    let s = packet_counted(state_of(d.file.stream_states, p.pid));
    assert(g.file.stream_states.insert(p.pid, s) =~= g.file.stream_states);
    assert(streaming(g, g, 184 - n, s, true));
    lemma_streaming_payload(g, 184 - n, s, true, rest, full);
    let q = pes_run(s, true, 184 - n, rest);
    assert(g.file.stream_states.insert(p.pid, q.state) =~= d.file.stream_states.insert(
        p.pid,
        q.state,
    ));
}

/// Where a unit starts on a PID whose unit before it is still being transferred, that one is
/// complete, and waits to be analysed before anything else is read.
pub proof fn lemma_a_new_unit_completes_the_one_before(d: Demux, p: Packet, control: u8, full: bool)
    requires
        p.unit_start,
        p.pid != 0,
        p.pid != d.parser.framing.pmt_pid,
        d.parser.pending is None,
        d.parser.framing.synced,
        d.parser.framing.header_left == 1,
        d.parser.framing.pid == p.pid,
        d.parser.framing.unit_start,
        state_of(d.file.stream_states, p.pid).core.transfer_state,
        state_of(d.file.stream_states, p.pid).core.transfer_count < u64::MAX,
    ensures
        ({
            let r = step(d, control, full);
            let s = state_of(d.file.stream_states, p.pid);
            let t = state_of(r.file.stream_states, p.pid);
            &&& r.parser.pending == Some(p.pid)
            &&& !t.core.transfer_state
            &&& t.core.transfer_count == s.core.transfer_count + 1
            &&& t.payload == s.payload
            &&& t.core.transfer_length == s.core.transfer_length
            &&& r.file.streams == d.file.streams
        }),
{
    lemma_step_header(d, control, full);
}

} // verus!
