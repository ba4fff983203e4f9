//! Transport-stream (`*.m2ts`) demultiplexer: the state machine over 192-byte source
//! packets.
//!
//! A source packet is a 4-byte time code and a 188-byte transport packet that starts with
//! the sync byte `0x47`. [`TsStreamFile::parse_chunk`] takes the bytes of a `*.m2ts` (or
//! of an interleaved `*.ssif`, whose extents are more source packets) in chunks of any
//! size, follows the PAT to the PMT and the PMT to the elementary streams, assembles each
//! PID's access units, reads their timestamps, and attributes the windows between video
//! timestamps to the playlists that play the file. Where the chunks are cut makes no
//! difference.
//!
//! The machine stops at every complete access unit: the caller has it analysed, hands the
//! outcome to [`TsStreamFile::scan_stream`], and goes on with the byte behind it.
//!
//! No input is malformed: what is not a packet is skipped up to the next sync byte.

use std::collections::BTreeMap;

use vstd::prelude::*;
use vstd::std_specs::btree::*;
use vstd::string::*;

use super::credit::{credit_playlist, credited_playlist, rate_playlist, rated_playlist, Credit};
use super::mpls::{playlist_views, plays, PlaylistView, TsPlaylistFile};
use super::pes::{
    blank_state, stream_byte, PayloadKind, PesState, StateView, TsStreamState, WindowMark,
};
use super::psi::{
    blank_section, body_byte, byte_at, byte_or_zero, high_nibble, parse_pat, pat_byte, pid_at,
    pmt_field, put, put_byte, read_pid, table_complete, SectionState, SECTION_SIZE,
};
use super::rates::{bit_rate, rate};
use crate::maps::{lemma_keys_from_members, lemma_views_insert, pids, sorted_keys, views};
use crate::primitives::Pid;
use crate::stream::{
    blank_audio, blank_graphics, blank_text, blank_video, copy_text, kind_of, type_of_code,
    StreamKind, TsAudioStream, TsGraphicsStream, TsStream, TsStreamBase, TsStreamType, TsTextStream,
    TsVideoStream,
};
use crate::text::{text_view, to_ascii_uppercase, upper};

verus! {

/// One video window: what came between two timestamps.
#[derive(Debug, PartialEq, Eq)]
pub struct TsStreamDiagnostics {
    /// The window's payload bytes.
    pub bytes: u64,
    /// The window's transport packets.
    pub packets: u64,
    /// The timestamp that closes the window.
    pub marker: i64,
    /// The timestamp's distance from the previous one.
    pub interval: i64,
    /// The frame tag of the access unit that the window closed on.
    pub tag: Option<String>,
}

impl Default for TsStreamDiagnostics {
    fn default() -> (r: Self)
        ensures
            r == (TsStreamDiagnostics { bytes: 0, packets: 0, marker: 0, interval: 0, tag: None }),
    {
        TsStreamDiagnostics { bytes: 0, packets: 0, marker: 0, interval: 0, tag: None }
    }
}

impl Clone for TsStreamDiagnostics {
    fn clone(&self) -> (r: Self)
        ensures
            r == *self,
    {
        TsStreamDiagnostics {
            bytes: self.bytes,
            packets: self.packets,
            marker: self.marker,
            interval: self.interval,
            tag: copy_text(&self.tag),
        }
    }
}

/// Where the packet framing stands.
#[derive(Debug, Clone, Copy, PartialEq, Eq, Structural)]
pub struct Framing {
    /// Whether a transport packet is being read.
    pub synced: bool,
    /// Countdown over the time code.
    pub time_code_left: u8,
    /// What is left of the transport packet, bytes.
    pub packet_left: u8,
    /// Countdown over the transport header.
    pub header_left: u8,
    /// Whether the packet starts a payload unit.
    pub unit_start: bool,
    /// The packet's PID.
    pub pid: u16,
    /// Whether the packet is scrambled.
    pub scrambled: bool,
    /// Whether the next byte is the adaptation-field length.
    pub adaption_next: bool,
    /// What is left of the adaptation field, bytes.
    pub adaption_left: u8,
    /// Whether a variable-length access unit is closed where this packet ends.
    pub variable_end: bool,
    /// The PMT's PID; `0xFFFF` until a PAT names it.
    pub pmt_pid: u16,
    /// Whether the packet's PID is a registered stream's.
    pub stream_present: bool,
}

/// Before the first packet.
pub open spec fn blank_framing() -> Framing {
    Framing {
        synced: false,
        time_code_left: 4,
        packet_left: 0,
        header_left: 0,
        unit_start: false,
        pid: 0,
        scrambled: false,
        adaption_next: false,
        adaption_left: 0,
        variable_end: false,
        pmt_pid: 0xFFFF,
        stream_present: false,
    }
}

/// The whole-file packet parser.
#[derive(Debug)]
pub struct TsPacketParser {
    framing: Framing,
    pat: SectionState,
    pat_table: Vec<u8>,
    pmt: SectionState,
    pmt_tables: BTreeMap<u16, Vec<u8>>,
    pts_first: i64,
    pts_last: i64,
    pending: Option<u16>,
}

/// What a [`TsPacketParser`] holds.
pub struct ParserView {
    /// Where the packet framing stands.
    pub framing: Framing,
    /// Where the PAT stands.
    pub pat: SectionState,
    /// The PAT's buffer.
    pub pat_table: Seq<u8>,
    /// Where the PMT stands.
    pub pmt: SectionState,
    /// The PMT buffer of each PID that has been the PMT's.
    pub pmt_tables: Map<u16, Seq<u8>>,
    /// The smallest decode timestamp of any window.
    pub pts_first: i64,
    /// The largest decode timestamp of any window.
    pub pts_last: i64,
    /// The PID whose complete access unit waits to be analysed.
    pub pending: Option<u16>,
}

impl View for TsPacketParser {
    type V = ParserView;

    closed spec fn view(&self) -> ParserView {
        ParserView {
            framing: self.framing,
            pat: self.pat,
            pat_table: self.pat_table@,
            pmt: self.pmt,
            pmt_tables: views(self.pmt_tables@),
            pts_first: self.pts_first,
            pts_last: self.pts_last,
            pending: self.pending,
        }
    }
}

/// An empty section buffer.
pub open spec fn blank_table() -> Seq<u8> {
    Seq::new(SECTION_SIZE as nat, |i: int| 0u8)
}

/// Before the first byte.
pub open spec fn blank_parser() -> ParserView {
    ParserView {
        framing: blank_framing(),
        pat: blank_section(),
        pat_table: blank_table(),
        pmt: blank_section(),
        pmt_tables: Map::empty(),
        pts_first: i64::MAX,
        pts_last: 0,
        pending: None,
    }
}

/// An empty section buffer.
fn new_table() -> (r: Vec<u8>)
    ensures
        r@ == blank_table(),
{
    let v: Vec<u8> = vec![0u8; SECTION_SIZE];
    proof {
        assert(v@ =~= blank_table());
    }
    v
}

impl TsPacketParser {
    /// A parser before the first byte.
    pub fn new() -> (r: Self)
        ensures
            r@ == blank_parser(),
    {
        let r = TsPacketParser {
            framing: Framing {
                synced: false,
                time_code_left: 4,
                packet_left: 0,
                header_left: 0,
                unit_start: false,
                pid: 0,
                scrambled: false,
                adaption_next: false,
                adaption_left: 0,
                variable_end: false,
                pmt_pid: 0xFFFF,
                stream_present: false,
            },
            pat: SectionState::default(),
            pat_table: new_table(),
            pmt: SectionState::default(),
            pmt_tables: BTreeMap::new(),
            pts_first: i64::MAX,
            pts_last: 0,
            pending: None,
        };
        proof {
            assert(r@.pmt_tables =~= Map::empty());
        }
        r
    }

    /// The PID whose complete access unit waits to be analysed.
    pub fn pending(&self) -> (r: Option<u16>)
        ensures
            r == self@.pending,
    {
        self.pending
    }
}

/// A demultiplexed stream file.
#[derive(Debug)]
pub struct TsStreamFile {
    /// The upper-cased file name, such as `00017.M2TS`.
    pub name: String,
    /// The bytes that were read.
    pub size: u64,
    /// The presentation length.
    pub length: i64,
    /// The upper-cased name of the interleaved 3D source, where the clip has one.
    pub interleaved_file: Option<String>,
    /// The elementary streams, keyed by PID.
    pub streams: BTreeMap<u16, TsStream>,
    /// The PIDs in the order in which they were first registered.
    pub stream_order: Vec<u16>,
    /// Where each PID stands.
    pub stream_states: BTreeMap<u16, TsStreamState>,
    /// The windows of each video PID.
    pub stream_diagnostics: BTreeMap<u16, Vec<TsStreamDiagnostics>>,
}

/// What a [`TsStreamFile`] holds.
pub struct FileView {
    pub name: Seq<char>,
    pub size: u64,
    pub length: i64,
    pub interleaved_file: Option<Seq<char>>,
    pub streams: Map<u16, TsStream>,
    pub stream_order: Seq<u16>,
    pub stream_states: Map<u16, StateView>,
    pub stream_diagnostics: Map<u16, Seq<TsStreamDiagnostics>>,
}

impl View for TsStreamFile {
    type V = FileView;

    open spec fn view(&self) -> FileView {
        FileView {
            name: self.name@,
            size: self.size,
            length: self.length,
            interleaved_file: text_view(self.interleaved_file),
            streams: self.streams@,
            stream_order: self.stream_order@,
            stream_states: views(self.stream_states@),
            stream_diagnostics: views(self.stream_diagnostics@),
        }
    }
}

/// A stream file of which nothing was read.
pub open spec fn blank_file(name: Seq<char>, interleaved_file: Option<Seq<char>>) -> FileView {
    FileView {
        name,
        size: 0,
        length: 0,
        interleaved_file,
        streams: Map::empty(),
        stream_order: Seq::empty(),
        stream_states: Map::empty(),
        stream_diagnostics: Map::empty(),
    }
}

/// What the scan of a stream file works on: the parser, the file, and the playlists.
pub struct Demux {
    pub parser: ParserView,
    pub file: FileView,
    pub playlists: Seq<PlaylistView>,
}

/// Where a PID stands; one that was not seen stands at the start.
pub open spec fn state_of(states: Map<u16, StateView>, pid: u16) -> StateView {
    if states.contains_key(pid) {
        states[pid]
    } else {
        blank_state()
    }
}

/// The windows of a PID; one that was not registered has none.
pub open spec fn windows_of(
    diagnostics: Map<u16, Seq<TsStreamDiagnostics>>,
    pid: u16,
) -> Seq<TsStreamDiagnostics> {
    if diagnostics.contains_key(pid) {
        diagnostics[pid]
    } else {
        Seq::empty()
    }
}

/// The PMT buffer of a PID.
pub open spec fn table_of(tables: Map<u16, Seq<u8>>, pid: u16) -> Seq<u8> {
    if tables.contains_key(pid) {
        tables[pid]
    } else {
        blank_table()
    }
}

// ---- windows ----

/// A stream of the file with a window more.
pub open spec fn tallied_stream(s: TsStream, bytes: u64, packets: u64, interval: i64) -> TsStream {
    let b = s.common();
    s.with_common(
        TsStreamBase {
            payload_bytes: b.payload_bytes.wrapping_add(bytes),
            packet_count: b.packet_count.wrapping_add(packets),
            packet_ticks: if b.video() {
                b.packet_ticks.wrapping_add(interval as i128)
            } else {
                b.packet_ticks
            },
            ..b
        },
    )
}

/// The window that a PID has open.
pub open spec fn open_window(file: FileView, pid: u16, pts: i64, interval: i64) -> Credit {
    let core = state_of(file.stream_states, pid).core;
    Credit {
        file: file.name,
        pid,
        bytes: core.window_bytes,
        packets: core.window_packets,
        pts,
        interval,
    }
}

/// A file after a PID's window has closed: its stream has it, a video stream's list has
/// it as an entry, and the next window is empty.
pub open spec fn flushed_file(file: FileView, pid: u16, pts: i64, interval: i64) -> FileView {
    let state = state_of(file.stream_states, pid);
    let bytes = state.core.window_bytes;
    let packets = state.core.window_packets;
    let known = file.streams.contains_key(pid);
    FileView {
        streams: if known {
            file.streams.insert(
                pid,
                tallied_stream(file.streams[pid], bytes, packets, interval),
            )
        } else {
            file.streams
        },
        stream_diagnostics: if known && file.streams[pid].common().video() {
            file.stream_diagnostics.insert(
                pid,
                windows_of(file.stream_diagnostics, pid).push(
                    TsStreamDiagnostics {
                        bytes,
                        packets,
                        marker: pts,
                        interval,
                        tag: state.stream_tag,
                    },
                ),
            )
        } else {
            file.stream_diagnostics
        },
        stream_states: file.stream_states.insert(
            pid,
            StateView {
                core: PesState { window_packets: 0, window_bytes: 0, ..state.core },
                ..state
            },
        ),
        ..file
    }
}

/// The playlists after a PID's window has closed.
pub open spec fn flushed_playlists(
    file: FileView,
    playlists: Seq<PlaylistView>,
    pid: u16,
    pts: i64,
    interval: i64,
) -> Seq<PlaylistView> {
    let w = open_window(file, pid, pts, interval);
    playlists.map_values(|p: PlaylistView| credited_playlist(p, w))
}

/// Whether a timestamp of `pts_pid` leaves the window of `pid` open: another video
/// stream's is, and one without a packet is.
pub open spec fn stays_open(file: FileView, pid: u16, pts_pid: u16) -> bool {
    ||| file.streams.contains_key(pid) && file.streams[pid].common().video() && pid != pts_pid
    ||| state_of(file.stream_states, pid).core.window_packets == 0
}

/// The file and the playlists after a timestamp of `pts_pid` has closed the windows of
/// the first `n` of `pids`.
pub open spec fn flushed(
    file: FileView,
    playlists: Seq<PlaylistView>,
    pids: Seq<u16>,
    n: int,
    pts_pid: u16,
    pts: i64,
    interval: i64,
) -> (FileView, Seq<PlaylistView>)
    decreases n,
{
    if n <= 0 {
        (file, playlists)
    } else {
        let (f, p) = flushed(file, playlists, pids, n - 1, pts_pid, pts, interval);
        let pid = pids[n - 1];
        if stays_open(f, pid, pts_pid) {
            (f, p)
        } else {
            (
                flushed_file(f, pid, pts, interval),
                flushed_playlists(f, p, pid, pts, interval),
            )
        }
    }
}

/// The playlists with the rates of what was seen, those that play the file.
pub open spec fn rated_playlists(playlists: Seq<PlaylistView>, name: Seq<char>) -> Seq<
    PlaylistView,
> {
    playlists.map_values(
        |p: PlaylistView|
            if plays(p, name) {
                rated_playlist(p)
            } else {
                p
            },
    )
}

/// The file and the playlists after a timestamp of `pts_pid`: every window that it
/// closes, in PID order, then the rates.
#[verifier::opaque]
pub open spec fn updated(
    file: FileView,
    playlists: Seq<PlaylistView>,
    pts_pid: u16,
    pts: i64,
    interval: i64,
) -> (FileView, Seq<PlaylistView>) {
    let pids = sorted_keys(file.stream_states.dom());
    let (f, p) = flushed(file, playlists, pids, pids.len() as int, pts_pid, pts, interval);
    (f, rated_playlists(p, f.name))
}

// ---- registration ----

/// A new stream of a coding type; an unknown type has none.
pub open spec fn new_stream(stream_type: TsStreamType) -> Option<TsStream> {
    match kind_of(stream_type) {
        StreamKind::Video => Some(TsStream::Video(blank_video())),
        StreamKind::Audio => Some(TsStream::Audio(blank_audio())),
        StreamKind::Graphics => Some(TsStream::Graphics(blank_graphics())),
        StreamKind::Text => Some(TsStream::Text(blank_text())),
        StreamKind::Unknown => None,
    }
}

/// What the start-code hunt has to know of a coding type.
pub open spec fn payload_kind(stream_type: TsStreamType) -> PayloadKind {
    match kind_of(stream_type) {
        StreamKind::Video => PayloadKind::Video,
        StreamKind::Audio => PayloadKind::Audio,
        StreamKind::Graphics => PayloadKind::Graphics,
        _ => PayloadKind::Other,
    }
}

/// A file after a PID that it does not have has been registered: with a stream, unless
/// the type is unknown, and with a window list either way.
pub open spec fn created(file: FileView, pid: u16, code: u8) -> FileView {
    let stream_type = type_of_code(code);
    let listed = FileView {
        stream_diagnostics: file.stream_diagnostics.insert(
            pid,
            windows_of(file.stream_diagnostics, pid),
        ),
        ..file
    };
    match new_stream(stream_type) {
        Some(stream) => {
            let state = state_of(file.stream_states, pid);
            FileView {
                streams: file.streams.insert(
                    pid,
                    stream.with_common(
                        TsStreamBase {
                            pid: Pid { raw: pid },
                            stream_type,
                            descriptors: Some(0),
                            ..stream.common()
                        },
                    ),
                ),
                stream_order: file.stream_order.push(pid),
                stream_states: file.stream_states.insert(
                    pid,
                    StateView {
                        core: PesState {
                            stream_kind: payload_kind(stream_type),
                            stream_initialized: stream.common().is_initialized,
                            ..state.core
                        },
                        ..state
                    },
                ),
                ..listed
            }
        },
        None => listed,
    }
}

/// A file after a PMT entry of a PID that it does not have. A graphics stream has its
/// detail at once, unless the scan is a full one.
pub open spec fn registered(file: FileView, pid: u16, code: u8, full: bool) -> FileView {
    let f = created(file, pid, code);
    if f.streams.contains_key(pid) && f.streams[pid].common().graphics() {
        let s = f.streams[pid];
        FileView {
            streams: f.streams.insert(
                pid,
                s.with_common(TsStreamBase { is_initialized: !full, ..s.common() }),
            ),
            ..f
        }
    } else {
        f
    }
}

/// A file after the PMT entries from `k` on, of a table of `bound` bytes. An entry of an
/// unknown type ends the walk.
pub open spec fn pmt_walk(file: FileView, table: Seq<u8>, bound: int, k: int, full: bool) -> FileView
    decreases
            if bound > k {
                bound - k
            } else {
                0
            },
{
    if k >= bound || k < 0 {
        file
    } else {
        let pid = pid_at(table, k + 1);
        let next = k + 5 + high_nibble(byte_or_zero(table, k + 3)) + byte_or_zero(table, k + 4);
        if file.streams.contains_key(pid) {
            pmt_walk(file, table, bound, next, full)
        } else {
            let f = registered(file, pid, byte_or_zero(table, k), full);
            if f.streams.contains_key(pid) {
                pmt_walk(f, table, bound, next, full)
            } else {
                f
            }
        }
    }
}

/// A file after a PMT section is complete: the table's end registers its streams. The
/// last four bytes are a checksum.
pub open spec fn pmt_closed(s: SectionState, table: Seq<u8>, file: FileView, full: bool) -> FileView {
    if table_complete(s) {
        pmt_walk(file, table, s.offset - 4, 0, full)
    } else {
        file
    }
}

/// One byte of the PMT's PID: the state, the buffers and the file after it. A section
/// without a body is complete before the byte that comes next.
pub open spec fn pmt_byte(
    s: SectionState,
    tables: Map<u16, Seq<u8>>,
    pid: u16,
    file: FileView,
    b: u8,
    full: bool,
) -> (SectionState, Map<u16, Seq<u8>>, FileView) {
    let table = table_of(tables, pid);
    if s.copying && s.length == 0 {
        (
            pmt_field(SectionState { copying: false, ..s }, b),
            tables,
            pmt_closed(s, table, file, full),
        )
    } else if s.copying {
        let d = body_byte(s);
        let filled = put(table, s.offset as int, b);
        if d.length == 0 {
            (
                SectionState { copying: false, ..d },
                tables.insert(pid, filled),
                pmt_closed(d, filled, file, full),
            )
        } else {
            (d, tables.insert(pid, filled), file)
        }
    } else {
        (pmt_field(s, b), tables, file)
    }
}

// ---- framing ----

/// One byte of the transport packet consumed: with the last one the sync is lost.
pub open spec fn consumed(f: Framing) -> Framing {
    Framing {
        packet_left: f.packet_left.wrapping_sub(1),
        synced: f.packet_left != 1,
        ..f
    }
}

/// One byte outside a transport packet: the time code first, then the hunt for the sync
/// byte.
pub open spec fn unsynced_byte(f: Framing, b: u8) -> Framing {
    if f.time_code_left > 0 {
        Framing { time_code_left: (f.time_code_left - 1) as u8, ..f }
    } else if b == 0x47 {
        Framing { synced: true, packet_left: 187, time_code_left: 4, header_left: 3, ..f }
    } else {
        f
    }
}

/// The length byte of an adaptation field, which reaches no further than the packet.
pub open spec fn adaption_length_byte(f: Framing, b: u8) -> Framing {
    let left = f.packet_left.wrapping_sub(1);
    Framing {
        packet_left: left,
        adaption_left: if b < left {
            b
        } else {
            left
        },
        adaption_next: false,
        variable_end: true,
        ..f
    }
}

/// One packet more on a PID.
pub open spec fn packet_counted(s: StateView) -> StateView {
    StateView {
        core: PesState {
            total_packets: s.core.total_packets.wrapping_add(1),
            window_packets: s.core.window_packets.wrapping_add(1),
            ..s.core
        },
        ..s
    }
}

/// The first of the three header bytes: the unit start and the high bits of the PID.
pub open spec fn header_first(d: Demux, b: u8) -> Demux {
    Demux {
        parser: ParserView {
            framing: Framing {
                unit_start: b / 64 % 2 == 1,
                pid: (b as int % 32 * 0x100) as u16,
                ..d.parser.framing
            },
            ..d.parser
        },
        ..d
    }
}

/// The second of the three header bytes: the low bits of the PID, whose packet counts.
pub open spec fn header_second(d: Demux, b: u8) -> Demux {
    let pid = d.parser.framing.pid.wrapping_add(b as u16);
    Demux {
        parser: ParserView {
            framing: Framing {
                pid,
                stream_present: d.file.streams.contains_key(pid),
                ..d.parser.framing
            },
            ..d.parser
        },
        file: FileView {
            stream_states: d.file.stream_states.insert(
                pid,
                packet_counted(state_of(d.file.stream_states, pid)),
            ),
            ..d.file
        },
        ..d
    }
}

/// The third of the three header bytes: scrambling and adaptation. A unit start opens a
/// table section on the PAT's and the PMT's PID; on any other it completes the access
/// unit whose payload was being transferred.
pub open spec fn header_third(d: Demux, b: u8) -> Demux {
    let f = Framing {
        scrambled: b / 64 != 0,
        adaption_next: d.parser.framing.adaption_next || b / 32 % 2 == 1,
        ..d.parser.framing
    };
    let p = ParserView { framing: f, ..d.parser };
    let state = state_of(d.file.stream_states, f.pid);
    if !f.unit_start {
        Demux { parser: p, ..d }
    } else if f.pid == 0 {
        Demux { parser: ParserView { pat: SectionState { start: true, ..p.pat }, ..p }, ..d }
    } else if f.pid == f.pmt_pid {
        Demux { parser: ParserView { pmt: SectionState { start: true, ..p.pmt }, ..p }, ..d }
    } else if state.core.transfer_state {
        Demux {
            parser: ParserView { pending: Some(f.pid), ..p },
            file: FileView {
                stream_states: d.file.stream_states.insert(
                    f.pid,
                    StateView {
                        core: PesState {
                            transfer_state: false,
                            transfer_count: state.core.transfer_count.wrapping_add(1),
                            ..state.core
                        },
                        ..state
                    },
                ),
                ..d.file
            },
            ..d
        }
    } else {
        Demux { parser: p, ..d }
    }
}

/// One of the three header bytes.
pub open spec fn header_byte(d: Demux, b: u8) -> Demux {
    let f = d.parser.framing;
    let e = Demux {
        parser: ParserView {
            framing: Framing {
                packet_left: f.packet_left.wrapping_sub(1),
                header_left: (f.header_left - 1) as u8,
                ..f
            },
            ..d.parser
        },
        ..d
    };
    if f.header_left == 3 {
        header_first(e, b)
    } else if f.header_left == 2 {
        header_second(e, b)
    } else {
        header_third(e, b)
    }
}

/// A window mark seen on `pid`: the windows that it closes, and the file's length, which
/// is the span of the decode timestamps.
pub open spec fn marked(d: Demux, pid: u16, mark: WindowMark) -> Demux {
    let (file, playlists) = updated(d.file, d.playlists, pid, mark.marker, mark.interval);
    let first = if mark.dts < d.parser.pts_first {
        mark.dts
    } else {
        d.parser.pts_first
    };
    let last = if mark.dts > d.parser.pts_last {
        mark.dts
    } else {
        d.parser.pts_last
    };
    Demux {
        parser: ParserView { pts_first: first, pts_last: last, ..d.parser },
        file: FileView { length: last.wrapping_sub(first), ..file },
        playlists,
    }
}

/// One payload byte of a registered, clear stream, before the window that it may close
/// is looked at.
pub open spec fn payload_taken(d: Demux, b: u8) -> (Demux, Option<WindowMark>) {
    let f = d.parser.framing;
    let (state, closing, complete, mark) = stream_byte(
        state_of(d.file.stream_states, f.pid),
        f.variable_end,
        f.packet_left.wrapping_sub(1),
        b,
    );
    (
        Demux {
            parser: ParserView {
                framing: Framing { variable_end: closing, ..consumed(f) },
                pending: if complete {
                    Some(f.pid)
                } else {
                    None
                },
                ..d.parser
            },
            file: FileView {
                stream_states: d.file.stream_states.insert(f.pid, state),
                ..d.file
            },
            ..d
        },
        mark,
    )
}

/// One payload byte of a registered, clear stream.
pub open spec fn payload_byte(d: Demux, b: u8) -> Demux {
    let (e, mark) = payload_taken(d, b);
    match mark {
        Some(m) => marked(e, d.parser.framing.pid, m),
        None => e,
    }
}

/// One byte of the transport packet's payload.
pub open spec fn body(d: Demux, b: u8, full: bool) -> Demux {
    let f = d.parser.framing;
    if f.pid == 0 {
        let (pat, pat_table, pmt_pid) = pat_byte(d.parser.pat, d.parser.pat_table, f.pmt_pid, b);
        Demux {
            parser: ParserView {
                framing: Framing { pmt_pid, ..consumed(f) },
                pat,
                pat_table,
                ..d.parser
            },
            ..d
        }
    } else if f.pid == f.pmt_pid {
        let (pmt, pmt_tables, file) = pmt_byte(
            d.parser.pmt,
            d.parser.pmt_tables,
            f.pid,
            d.file,
            b,
            full,
        );
        Demux {
            parser: ParserView { framing: consumed(f), pmt, pmt_tables, ..d.parser },
            file,
            ..d
        }
    } else if f.stream_present && !f.scrambled {
        payload_byte(d, b)
    } else {
        Demux { parser: ParserView { framing: consumed(f), ..d.parser }, ..d }
    }
}

/// The scan after one more byte. While a complete access unit waits to be analysed,
/// nothing moves.
#[verifier::opaque]
pub open spec fn step(d: Demux, b: u8, full: bool) -> Demux {
    let f = d.parser.framing;
    if d.parser.pending is Some {
        d
    } else if !f.synced {
        Demux { parser: ParserView { framing: unsynced_byte(f, b), ..d.parser }, ..d }
    } else if f.header_left > 0 {
        header_byte(d, b)
    } else if f.adaption_next {
        Demux { parser: ParserView { framing: adaption_length_byte(f, b), ..d.parser }, ..d }
    } else if f.adaption_left > 0 {
        Demux {
            parser: ParserView {
                framing: Framing { adaption_left: (f.adaption_left - 1) as u8, ..consumed(f) },
                ..d.parser
            },
            ..d
        }
    } else {
        body(d, b, full)
    }
}

/// Whether the next byte is payload of a registered, clear stream.
pub open spec fn in_payload(p: ParserView) -> bool {
    let f = p.framing;
    &&& p.pending is None
    &&& f.synced
    &&& f.header_left == 0
    &&& !f.adaption_next
    &&& f.adaption_left == 0
    &&& f.pid != 0
    &&& f.pid != f.pmt_pid
    &&& f.stream_present
    &&& !f.scrambled
}

/// The scan after more bytes.
pub open spec fn run(d: Demux, bytes: Seq<u8>, full: bool) -> Demux
    decreases bytes.len(),
{
    if bytes.len() == 0 {
        d
    } else {
        step(run(d, bytes.drop_last(), full), bytes.last(), full)
    }
}

// ---- access units ----

/// What the analysis of an access unit gives back: the stream with the codec detail it
/// has found, and the frame tag, where the unit held a frame.
pub struct AccessUnitScan {
    /// The stream after the analysis.
    pub stream: TsStream,
    /// The frame tag.
    pub tag: Option<String>,
}

/// The rate of the access unit that a PID has assembled: known for audio, once two
/// timestamps are.
pub open spec fn unit_rate(file: FileView, pid: u16) -> i64 {
    let core = state_of(file.stream_states, pid).core;
    if file.streams.contains_key(pid) && file.streams[pid].common().audio() && core.pts_transfer
        > 0 {
        bit_rate(core.transfer_length, core.pts_transfer as i128)
    } else {
        0
    }
}

/// The larger of two numbers.
pub open spec fn larger(a: i64, b: i64) -> i64 {
    if b > a {
        b
    } else {
        a
    }
}

/// A file after the access unit of `pid` has been analysed: the stream is the analysed
/// one, and the next unit is empty. Without an analysis the stream stays as it is.
pub open spec fn analysed(file: FileView, pid: u16, scan: Option<AccessUnitScan>) -> FileView {
    let state = state_of(file.stream_states, pid);
    let known = file.streams.contains_key(pid);
    let streams = match scan {
        Some(found) => if known {
            file.streams.insert(pid, found.stream)
        } else {
            file.streams
        },
        None => file.streams,
    };
    let length = if state.core.transfer_length > i64::MAX {
        i64::MAX
    } else {
        state.core.transfer_length as i64
    };
    FileView {
        streams,
        stream_states: file.stream_states.insert(
            pid,
            StateView {
                core: PesState {
                    peak_transfer_rate: larger(
                        state.core.peak_transfer_rate,
                        if file.streams.contains_key(pid) && file.streams[pid].common().audio()
                            && state.core.pts_transfer > 0 {
                            unit_rate(file, pid)
                        } else {
                            state.core.peak_transfer_rate
                        },
                    ),
                    peak_transfer_length: larger(state.core.peak_transfer_length, length),
                    transfer_length: 0,
                    stream_initialized: if known {
                        streams[pid].common().is_initialized
                    } else {
                        state.core.stream_initialized
                    },
                    ..state.core
                },
                payload: Seq::empty(),
                stream_tag: match scan {
                    Some(found) => if known {
                        found.tag
                    } else {
                        None
                    },
                    None => None,
                },
            },
        ),
        ..file
    }
}

/// Whether a file has a stream of a coding type.
pub open spec fn has_type(streams: Map<u16, TsStream>, stream_type: TsStreamType) -> bool {
    exists|pid: u16| #[trigger]
        streams.contains_key(pid) && streams[pid].common().stream_type == stream_type
}

/// Whether every stream of a file has its codec detail; the dependent view of a 3D pair
/// waits for its base view.
pub open spec fn all_initialized(streams: Map<u16, TsStream>) -> bool {
    &&& forall|pid: u16| #[trigger]
        streams.contains_key(pid) ==> streams[pid].common().is_initialized
    &&& has_type(streams, TsStreamType::MvcVideo) ==> has_type(streams, TsStreamType::AvcVideo)
}

// ---- the end of a scan ----

/// The end of a scan over the first `n` of `pids`: the file, the playlists, and the
/// largest video timestamp so far with its distance from the decode timestamp before it.
pub open spec fn finished_over(
    start: FileView,
    playlists: Seq<PlaylistView>,
    pids: Seq<u16>,
    n: int,
) -> (FileView, Seq<PlaylistView>, i64, i64)
    decreases n,
{
    if n <= 0 {
        (start, playlists, 0, 0)
    } else {
        let (f, p, last, diff) = finished_over(start, playlists, pids, n - 1);
        let pid = pids[n - 1];
        if start.streams[pid].common().video() {
            let core = state_of(f.stream_states, pid).core;
            let (last2, diff2) = if core.pts_last > last {
                (core.pts_last, core.pts_last.wrapping_sub(core.dts_prev))
            } else {
                (last, diff)
            };
            let (f2, p2) = updated(f, p, pid, last2, diff2);
            (f2, p2, last2, diff2)
        } else {
            (f, p, last, diff)
        }
    }
}

/// The end of a scan: every video stream's last window closes, in PID order, at the
/// largest timestamp so far.
pub open spec fn finished(file: FileView, playlists: Seq<PlaylistView>) -> (
    FileView,
    Seq<PlaylistView>,
) {
    let pids = sorted_keys(file.streams.dom());
    let (f, p, _, _) = finished_over(file, playlists, pids, pids.len() as int);
    (f, p)
}

// ---- the code ----

/// Taking an entry out and putting one in is putting it in.
proof fn lemma_put_back<V: View>(m: Map<u16, V>, k: u16, v: V)
    ensures
        views(m.remove(k).insert(k, v)) == views(m).insert(k, v@),
{
    assert(views(m.remove(k).insert(k, v)) =~= views(m).insert(k, v@));
}

/// Takes out where a PID stands; one that was not seen stands at the start.
fn take_state(states: &mut BTreeMap<u16, TsStreamState>, pid: u16) -> (r: TsStreamState)
    ensures
        r@ == state_of(views(old(states)@), pid),
        final(states)@ == old(states)@.remove(pid),
{
    broadcast use group_btree_axioms;

    match states.remove(&pid) {
        Some(state) => state,
        None => TsStreamState::default(),
    }
}

/// Takes out the windows of a PID.
fn take_windows(diagnostics: &mut BTreeMap<u16, Vec<TsStreamDiagnostics>>, pid: u16) -> (r: Vec<
    TsStreamDiagnostics,
>)
    ensures
        r@ == windows_of(views(old(diagnostics)@), pid),
        final(diagnostics)@ == old(diagnostics)@.remove(pid),
{
    broadcast use group_btree_axioms;

    match diagnostics.remove(&pid) {
        Some(list) => list,
        None => Vec::new(),
    }
}

impl TsStreamFile {
    /// A stream file named `name`, of which nothing was read.
    pub fn new(name: &str) -> (r: Self)
        ensures
            r@ == blank_file(upper(name@), None),
    {
        let r = TsStreamFile {
            name: to_ascii_uppercase(name),
            size: 0,
            length: 0,
            interleaved_file: None,
            streams: BTreeMap::new(),
            stream_order: Vec::new(),
            stream_states: BTreeMap::new(),
            stream_diagnostics: BTreeMap::new(),
        };
        proof {
            assert(r@.stream_states =~= Map::empty());
            assert(r@.stream_diagnostics =~= Map::empty());
        }
        r
    }

    /// The name shown for the file: that of its interleaved source where it has one and
    /// such sources are read, else its own.
    pub fn display_name(&self, enable_ssif: bool) -> (r: &str)
        ensures
            r@ == (match self.interleaved_file {
                Some(name) => if enable_ssif {
                    name@
                } else {
                    self.name@
                },
                None => self.name@,
            }),
    {
        match &self.interleaved_file {
            Some(name) => if enable_ssif {
                name.as_str()
            } else {
                self.name.as_str()
            },
            None => self.name.as_str(),
        }
    }

    /// Forgets what an earlier scan has read, and returns a parser before the first byte.
    /// Without a playlist there is nothing to measure, and nothing is forgotten.
    pub fn begin_scan(&mut self, playlists: &Vec<TsPlaylistFile>) -> (r: Option<TsPacketParser>)
        ensures
            playlists@.len() == 0 ==> r is None && *final(self) == *old(self),
            playlists@.len() > 0 ==> {
                &&& r is Some
                &&& r->Some_0@ == blank_parser()
                &&& final(self)@ == blank_file(old(self).name@, old(self)@.interleaved_file)
            },
    {
        if playlists.is_empty() {
            return None;
        }
        self.size = 0;
        self.length = 0;
        self.streams.clear();
        self.stream_order.clear();
        self.stream_states.clear();
        self.stream_diagnostics.clear();
        proof {
            assert(self@.stream_states =~= Map::empty());
            assert(self@.stream_diagnostics =~= Map::empty());
        }
        Some(TsPacketParser::new())
    }

    /// Frees what only the scan itself needs.
    pub fn release_scratch(&mut self)
        ensures
            final(self)@ == (FileView { stream_states: Map::empty(), ..old(self)@ }),
    {
        self.stream_states.clear();
        proof {
            assert(self@.stream_states =~= Map::empty());
        }
    }

    /// Closes the window of `pid` at a timestamp: the playlists that play the file, the
    /// file's own stream and its window list get it, and the next one is empty.
    pub fn update_stream_bitrate(
        &mut self,
        pid: u16,
        pts: i64,
        interval: i64,
        playlists: &mut Vec<TsPlaylistFile>,
    )
        ensures
            final(self)@ == flushed_file(old(self)@, pid, pts, interval),
            playlist_views(final(playlists)@) == flushed_playlists(
                old(self)@,
                playlist_views(old(playlists)@),
                pid,
                pts,
                interval,
            ),
    {
        broadcast use group_btree_axioms;

        let ghost was = self@;
        let ghost states = self.stream_states@;
        let mut state = take_state(&mut self.stream_states, pid);
        let bytes: u64 = state.core.window_bytes;
        let packets: u64 = state.core.window_packets;
        credit_playlists(playlists, self.name.as_str(), pid, bytes, packets, pts, interval);
        let ghost tag = state.stream_tag;
        if let Some(mut stream) = self.streams.remove(&pid) {
            let mut base = *stream.base();
            base.payload_bytes = base.payload_bytes.wrapping_add(bytes);
            base.packet_count = base.packet_count.wrapping_add(packets);
            if base.is_video_stream() {
                base.packet_ticks = base.packet_ticks.wrapping_add(interval as i128);
                let ghost lists = self.stream_diagnostics@;
                let mut list = take_windows(&mut self.stream_diagnostics, pid);
                list.push(
                    TsStreamDiagnostics {
                        bytes,
                        packets,
                        marker: pts,
                        interval,
                        tag: copy_text(&state.stream_tag),
                    },
                );
                let ghost full_list = list;
                self.stream_diagnostics.insert(pid, list);
                proof {
                    lemma_put_back(lists, pid, full_list);
                }
            }
            stream.set_base(base);
            self.streams.insert(pid, stream);
            proof {
                assert(self.streams@ =~= was.streams.insert(
                    pid,
                    tallied_stream(was.streams[pid], bytes, packets, interval),
                ));
            }
        } else {
            proof {
                assert(self.streams@ =~= was.streams);
            }
        }
        state.core.window_packets = 0;
        state.core.window_bytes = 0;
        let ghost closed = state;
        self.stream_states.insert(pid, state);
        proof {
            lemma_put_back(states, pid, closed);
            assert(self@ == flushed_file(was, pid, pts, interval));
        }
    }

    /// Whether a timestamp of `pts_pid` leaves the window of `pid` open.
    fn leaves_open(&self, pid: u16, pts_pid: u16) -> (r: bool)
        ensures
            r == stays_open(self@, pid, pts_pid),
    {
        broadcast use group_btree_axioms;

        if let Some(stream) = self.streams.get(&pid) {
            if stream.base().is_video_stream() && pid != pts_pid {
                return true;
            }
        }
        match self.stream_states.get(&pid) {
            Some(state) => {
                assert(views(self.stream_states@)[pid] == state@);
                state.core.window_packets == 0
            },
            None => true,
        }
    }

    /// Closes the windows that a timestamp of `pts_pid` closes, and gives the playlists
    /// that play the file the rates of what was seen.
    pub fn update_stream_bitrates(
        &mut self,
        pts_pid: u16,
        pts: i64,
        interval: i64,
        playlists: &mut Vec<TsPlaylistFile>,
    )
        ensures
            (final(self)@, playlist_views(final(playlists)@)) == updated(
                old(self)@,
                playlist_views(old(playlists)@),
                pts_pid,
                pts,
                interval,
            ),
    {
        reveal(updated);
        let ghost was = self@;
        let ghost before = playlist_views(playlists@);
        let keys = pids(&self.stream_states);
        proof {
            assert(self.stream_states@.dom() =~= was.stream_states.dom());
        }
        let mut i: usize = 0;
        while i < keys.len()
            invariant
                i <= keys@.len(),
                (self@, playlist_views(playlists@)) == flushed(
                    was,
                    before,
                    keys@,
                    i as int,
                    pts_pid,
                    pts,
                    interval,
                ),
            decreases keys@.len() - i,
        {
            if !self.leaves_open(keys[i], pts_pid) {
                self.update_stream_bitrate(keys[i], pts, interval, playlists);
            }
            i = i + 1;
        }
        rate_playlists(playlists, self.name.as_str());
    }
}

/// Adds a window of the stream file `file` to the playlists.
fn credit_playlists(
    playlists: &mut Vec<TsPlaylistFile>,
    file: &str,
    pid: u16,
    bytes: u64,
    packets: u64,
    pts: i64,
    interval: i64,
)
    ensures
        playlist_views(final(playlists)@) == playlist_views(old(playlists)@).map_values(
            |p: PlaylistView|
                credited_playlist(p, Credit { file: file@, pid, bytes, packets, pts, interval }),
        ),
{
    let ghost w = Credit { file: file@, pid, bytes, packets, pts, interval };
    let ghost was = playlist_views(playlists@);
    let n: usize = playlists.len();
    let mut i: usize = 0;
    while i < n
        invariant
            i <= n,
            n == playlists@.len(),
            n == was.len(),
            w == (Credit { file: file@, pid, bytes, packets, pts, interval }),
            forall|k: int|
                0 <= k < i ==> #[trigger] playlist_views(playlists@)[k] == credited_playlist(
                    was[k],
                    w,
                ),
            forall|k: int| i <= k < n ==> #[trigger] playlist_views(playlists@)[k] == was[k],
        decreases n - i,
    {
        let ghost now = playlist_views(playlists@);
        assert(now[i as int] == was[i as int]);
        credit_playlist(&mut playlists[i], file, pid, bytes, packets, pts, interval);
        proof {
            assert(playlist_views(playlists@) =~= now.update(
                i as int,
                credited_playlist(was[i as int], w),
            ));
        }
        i = i + 1;
    }
    proof {
        assert(playlist_views(playlists@) =~= was.map_values(
            |p: PlaylistView|
                credited_playlist(p, Credit { file: file@, pid, bytes, packets, pts, interval }),
        ));
    }
}

/// Gives the playlists that play the stream file `file` the rates of what was seen.
fn rate_playlists(playlists: &mut Vec<TsPlaylistFile>, file: &str)
    ensures
        playlist_views(final(playlists)@) == rated_playlists(
            playlist_views(old(playlists)@),
            file@,
        ),
{
    let ghost was = playlist_views(playlists@);
    let n: usize = playlists.len();
    let mut i: usize = 0;
    while i < n
        invariant
            i <= n,
            n == playlists@.len(),
            n == was.len(),
            forall|k: int|
                0 <= k < i ==> #[trigger] playlist_views(playlists@)[k] == rated_playlists(
                    was,
                    file@,
                )[k],
            forall|k: int| i <= k < n ==> #[trigger] playlist_views(playlists@)[k] == was[k],
        decreases n - i,
    {
        let ghost now = playlist_views(playlists@);
        assert(now[i as int] == was[i as int]);
        if playlists[i].plays_file(file) {
            rate_playlist(&mut playlists[i]);
        }
        proof {
            assert(playlist_views(playlists@) =~= now.update(
                i as int,
                rated_playlists(was, file@)[i as int],
            ));
        }
        i = i + 1;
    }
    proof {
        assert(playlist_views(playlists@) =~= rated_playlists(was, file@));
    }
}

/// What the start-code hunt has to know of a coding type.
fn hunt_kind(stream_type: TsStreamType) -> (r: PayloadKind)
    ensures
        r == payload_kind(stream_type),
{
    match stream_type.kind() {
        StreamKind::Video => PayloadKind::Video,
        StreamKind::Audio => PayloadKind::Audio,
        StreamKind::Graphics => PayloadKind::Graphics,
        _ => PayloadKind::Other,
    }
}

impl TsStreamFile {
    /// Registers a stream of the coding type `code` on `pid`. An unknown type registers
    /// none; the PID has a window list either way.
    pub fn create_stream(&mut self, pid: u16, code: u8)
        requires
            !old(self).streams@.contains_key(pid),
        ensures
            final(self)@ == created(old(self)@, pid, code),
    {
        broadcast use group_btree_axioms;

        let ghost was = self@;
        let stream_type = TsStreamType::from_u8(code);
        let stream = match stream_type.kind() {
            StreamKind::Video => Some(TsStream::Video(TsVideoStream::default())),
            StreamKind::Audio => Some(TsStream::Audio(TsAudioStream::default())),
            StreamKind::Graphics => Some(TsStream::Graphics(TsGraphicsStream::default())),
            StreamKind::Text => Some(TsStream::Text(TsTextStream::default())),
            StreamKind::Unknown => None,
        };
        if let Some(mut stream) = stream {
            let mut base = *stream.base();
            base.pid = Pid::new(pid);
            base.stream_type = stream_type;
            base.descriptors = Some(0);
            stream.set_base(base);
            self.stream_order.push(pid);
            self.streams.insert(pid, stream);
            let ghost states = self.stream_states@;
            let mut state = take_state(&mut self.stream_states, pid);
            state.core.stream_kind = hunt_kind(stream_type);
            state.core.stream_initialized = base.is_initialized;
            let ghost mirrored = state;
            self.stream_states.insert(pid, state);
            proof {
                lemma_put_back(states, pid, mirrored);
            }
        }
        let ghost lists = self.stream_diagnostics@;
        let list = take_windows(&mut self.stream_diagnostics, pid);
        let ghost same_list = list;
        self.stream_diagnostics.insert(pid, list);
        proof {
            lemma_put_back(lists, pid, same_list);
            assert(self@ == created(was, pid, code));
        }
    }

    /// Registers the PMT entry of a PID that the file does not have, and returns whether
    /// it has it now.
    fn register(&mut self, pid: u16, code: u8, full: bool) -> (r: bool)
        requires
            !old(self).streams@.contains_key(pid),
        ensures
            final(self)@ == registered(old(self)@, pid, code, full),
            r == final(self)@.streams.contains_key(pid),
    {
        broadcast use group_btree_axioms;

        self.create_stream(pid, code);
        let ghost made = self@;
        if let Some(mut stream) = self.streams.remove(&pid) {
            if stream.base().is_graphics_stream() {
                let mut base = *stream.base();
                base.is_initialized = !full;
                stream.set_base(base);
            }
            let ghost put_in = stream;
            self.streams.insert(pid, stream);
            proof {
                assert(self.streams@ =~= made.streams.insert(pid, put_in));
                assert(made.streams.insert(pid, made.streams[pid]) =~= made.streams);
            }
            true
        } else {
            proof {
                assert(self.streams@ =~= made.streams);
            }
            false
        }
    }

    /// Registers the streams of a complete PMT of `bound` bytes.
    fn walk_pmt(&mut self, table: &Vec<u8>, bound: u64, full: bool)
        requires
            bound <= u32::MAX,
        ensures
            final(self)@ == pmt_walk(old(self)@, table@, bound as int, 0, full),
    {
        broadcast use group_btree_axioms;

        let ghost whole = pmt_walk(self@, table@, bound as int, 0, full);
        let mut k: u64 = 0;
        while k < bound
            invariant
                k <= bound + 0x2_0000,
                bound <= u32::MAX,
                whole == pmt_walk(old(self)@, table@, bound as int, 0, full),
                pmt_walk(self@, table@, bound as int, k as int, full) == whole,
            decreases bound + 0x2_0000 - k,
        {
            let pid: u16 = read_pid(table, k + 1);
            let info: u64 = (byte_at(table, k + 3) % 16) as u64 * 0x100 + byte_at(table, k + 4) as u64;
            if !self.streams.contains_key(&pid) {
                let known = self.register(pid, byte_at(table, k), full);
                if !known {
                    return;
                }
            }
            k = k + 5 + info;
        }
    }

    /// Takes one byte of the PMT's PID.
    fn parse_pmt(&mut self, parser: &mut TsPacketParser, b: u8, full: bool)
        ensures
            ({
                let (pmt, pmt_tables, file) = pmt_byte(
                    old(parser)@.pmt,
                    old(parser)@.pmt_tables,
                    old(parser)@.framing.pid,
                    old(self)@,
                    b,
                    full,
                );
                &&& final(parser)@ == (ParserView { pmt, pmt_tables, ..old(parser)@ })
                &&& final(self)@ == file
            }),
    {
        broadcast use group_btree_axioms;

        let pid: u16 = parser.framing.pid;
        let ghost was = parser@;
        if parser.pmt.copying && parser.pmt.length == 0 {
            parser.pmt.copying = false;
            if parser.pmt.number == parser.pmt.last && parser.pmt.offset >= 4 {
                let bound: u64 = parser.pmt.offset as u64 - 4;
                match parser.pmt_tables.get(&pid) {
                    Some(table) => {
                        assert(table@ == table_of(was.pmt_tables, pid));
                        self.walk_pmt(table, bound, full);
                    },
                    None => {
                        let table = new_table();
                        self.walk_pmt(&table, bound, full);
                    },
                }
            }
            parser.pmt.take_pmt_field(b);
        } else if parser.pmt.copying {
            let ghost tables = parser.pmt_tables@;
            let mut table = match parser.pmt_tables.remove(&pid) {
                Some(table) => table,
                None => new_table(),
            };
            assert(table@ == table_of(was.pmt_tables, pid));
            put_byte(&mut table, parser.pmt.offset, b);
            parser.pmt.take_body_byte();
            if parser.pmt.length == 0 {
                parser.pmt.copying = false;
                if parser.pmt.number == parser.pmt.last && parser.pmt.offset >= 4 {
                    self.walk_pmt(&table, parser.pmt.offset as u64 - 4, full);
                }
            }
            let ghost filled = table;
            parser.pmt_tables.insert(pid, table);
            proof {
                lemma_put_back(tables, pid, filled);
            }
        } else {
            parser.pmt.take_pmt_field(b);
        }
    }

    /// The rate of the access unit that a PID has assembled.
    pub fn access_unit_rate(&self, pid: u16) -> (r: i64)
        ensures
            r == unit_rate(self@, pid),
    {
        broadcast use group_btree_axioms;

        let is_audio = match self.streams.get(&pid) {
            Some(stream) => stream.base().is_audio_stream(),
            None => false,
        };
        match self.stream_states.get(&pid) {
            Some(state) => {
                assert(views(self.stream_states@)[pid] == state@);
                if is_audio && state.core.pts_transfer > 0 {
                    rate(state.core.transfer_length, state.core.pts_transfer as i128)
                } else {
                    0
                }
            },
            None => 0,
        }
    }

    /// Takes over what the analysis of the access unit of `pid` has given back, and
    /// returns whether a quick scan has all it needs.
    pub fn scan_stream(&mut self, pid: u16, full: bool, scan: Option<AccessUnitScan>) -> (r: bool)
        ensures
            final(self)@ == analysed(old(self)@, pid, scan),
            r == (!full && all_initialized(final(self)@.streams)),
    {
        broadcast use group_btree_axioms;

        let ghost was = self@;
        let unit: i64 = self.access_unit_rate(pid);
        let is_audio = match self.streams.get(&pid) {
            Some(stream) => stream.base().is_audio_stream(),
            None => false,
        };
        let ghost states = self.stream_states@;
        let mut state = take_state(&mut self.stream_states, pid);
        if is_audio && state.core.pts_transfer > 0 && unit > state.core.peak_transfer_rate {
            state.core.peak_transfer_rate = unit;
        }
        let length: i64 = if state.core.transfer_length > 0x7FFF_FFFF_FFFF_FFFF {
            i64::MAX
        } else {
            state.core.transfer_length as i64
        };
        if length > state.core.peak_transfer_length {
            state.core.peak_transfer_length = length;
        }
        state.stream_tag = None;
        if self.streams.contains_key(&pid) {
            if let Some(found) = scan {
                state.stream_tag = found.tag;
                self.streams.insert(pid, found.stream);
            }
            if let Some(stream) = self.streams.get(&pid) {
                state.core.stream_initialized = stream.base().is_initialized;
            }
        }
        state.core.transfer_length = 0;
        state.payload.clear();
        let ghost done = state;
        self.stream_states.insert(pid, state);
        proof {
            lemma_put_back(states, pid, done);
            assert(self@ == analysed(was, pid, scan));
        }
        if full {
            return false;
        }
        self.is_initialized()
    }

    /// Whether every stream has its codec detail.
    fn is_initialized(&self) -> (r: bool)
        ensures
            r == all_initialized(self@.streams),
    {
        broadcast use group_btree_axioms;

        let keys = pids(&self.streams);
        proof {
            lemma_keys_from_members(self.streams@.dom(), 0);
        }
        let mut is_avc = false;
        let mut is_mvc = false;
        let mut i: usize = 0;
        while i < keys.len()
            invariant
                i <= keys@.len(),
                forall|a: int|
                    0 <= a < keys@.len() ==> self.streams@.dom().contains(#[trigger] keys@[a]),
                forall|x: u16| #[trigger] self.streams@.dom().contains(x) ==> keys@.contains(x),
                forall|a: int|
                    0 <= a < i ==> self.streams@[#[trigger] keys@[a]].common().is_initialized,
                is_avc == exists|a: int|
                    0 <= a < i && self.streams@[#[trigger] keys@[a]].common().stream_type
                        is AvcVideo,
                is_mvc == exists|a: int|
                    0 <= a < i && self.streams@[#[trigger] keys@[a]].common().stream_type
                        is MvcVideo,
            decreases keys@.len() - i,
        {
            let pid: u16 = keys[i];
            assert(self.streams@.dom().contains(keys@[i as int]));
            if let Some(stream) = self.streams.get(&pid) {
                if !stream.base().is_initialized {
                    assert(self@.streams.contains_key(pid));
                    return false;
                }
                if matches!(stream.stream_type(), TsStreamType::AvcVideo) {
                    is_avc = true;
                }
                if matches!(stream.stream_type(), TsStreamType::MvcVideo) {
                    is_mvc = true;
                }
            }
            i = i + 1;
        }
        proof {
            let m = self@.streams;
            assert forall|pid: u16| #[trigger] m.contains_key(pid) implies m[pid].common().is_initialized by {
                assert(self.streams@.dom().contains(pid));
                assert(keys@.contains(pid));
            }
            assert(is_avc == has_type(m, TsStreamType::AvcVideo)) by {
                if is_avc {
                    let a = choose|a: int|
                        0 <= a < keys@.len() && self.streams@[#[trigger] keys@[a]].common().stream_type
                            is AvcVideo;
                    assert(m.contains_key(keys@[a]));
                }
                if has_type(m, TsStreamType::AvcVideo) {
                    let pid = choose|pid: u16| #[trigger]
                        m.contains_key(pid) && m[pid].common().stream_type
                            == TsStreamType::AvcVideo;
                    assert(self.streams@.dom().contains(pid));
                    assert(keys@.contains(pid));
                    let a = choose|a: int| 0 <= a < keys@.len() && keys@[a] == pid;
                    assert(self.streams@[keys@[a]].common().stream_type is AvcVideo);
                }
            }
            assert(is_mvc == has_type(m, TsStreamType::MvcVideo)) by {
                if is_mvc {
                    let a = choose|a: int|
                        0 <= a < keys@.len() && self.streams@[#[trigger] keys@[a]].common().stream_type
                            is MvcVideo;
                    assert(m.contains_key(keys@[a]));
                }
                if has_type(m, TsStreamType::MvcVideo) {
                    let pid = choose|pid: u16| #[trigger]
                        m.contains_key(pid) && m[pid].common().stream_type
                            == TsStreamType::MvcVideo;
                    assert(self.streams@.dom().contains(pid));
                    assert(keys@.contains(pid));
                    let a = choose|a: int| 0 <= a < keys@.len() && keys@[a] == pid;
                    assert(self.streams@[keys@[a]].common().stream_type is MvcVideo);
                }
            }
        }
        !(is_mvc && !is_avc)
    }

    /// Closes every video stream's last window. This is for a scan that has read the
    /// whole file.
    pub fn finish_scan(&mut self, playlists: &mut Vec<TsPlaylistFile>)
        ensures
            (final(self)@, playlist_views(final(playlists)@)) == finished(
                old(self)@,
                playlist_views(old(playlists)@),
            ),
    {
        broadcast use group_btree_axioms;

        let ghost start = self@;
        let ghost before = playlist_views(playlists@);
        let keys = pids(&self.streams);
        let mut video: Vec<bool> = Vec::new();
        let mut k: usize = 0;
        proof {
            lemma_keys_from_members(self.streams@.dom(), 0);
        }
        while k < keys.len()
            invariant
                k <= keys@.len(),
                video@.len() == k,
                start == self@,
                forall|a: int|
                    0 <= a < keys@.len() ==> self.streams@.dom().contains(#[trigger] keys@[a]),
                forall|a: int|
                    0 <= a < k ==> #[trigger] video@[a] == start.streams[keys@[a]].common().video(),
            decreases keys@.len() - k,
        {
            assert(self.streams@.dom().contains(keys@[k as int]));
            let pid: u16 = keys[k];
            let is_video = match self.streams.get(&pid) {
                Some(stream) => stream.base().is_video_stream(),
                None => false,
            };
            video.push(is_video);
            k = k + 1;
        }
        let mut pts_last: i64 = 0;
        let mut pts_diff: i64 = 0;
        let mut i: usize = 0;
        while i < keys.len()
            invariant
                i <= keys@.len(),
                video@.len() == keys@.len(),
                pts_last >= 0,
                forall|a: int|
                    0 <= a < keys@.len() ==> #[trigger] video@[a]
                        == start.streams[keys@[a]].common().video(),
                (self@, playlist_views(playlists@), pts_last, pts_diff) == finished_over(
                    start,
                    before,
                    keys@,
                    i as int,
                ),
            decreases keys@.len() - i,
        {
            if video[i] {
                let pid: u16 = keys[i];
                if let Some(state) = self.stream_states.get(&pid) {
                    assert(views(self.stream_states@)[pid] == state@);
                    if state.core.pts_last > pts_last {
                        pts_last = state.core.pts_last;
                        pts_diff = pts_last.wrapping_sub(state.core.dts_prev);
                    }
                }
                self.update_stream_bitrates(pid, pts_last, pts_diff, playlists);
            }
            i = i + 1;
        }
    }
}

/// Where the scan stands.
pub open spec fn demux(
    file: TsStreamFile,
    parser: TsPacketParser,
    playlists: Seq<TsPlaylistFile>,
) -> Demux {
    Demux { parser: parser@, file: file@, playlists: playlist_views(playlists) }
}

/// Why a chunk was left.
#[derive(Debug, Clone, Copy, PartialEq, Eq, Structural)]
pub enum ChunkStop {
    /// All its bytes are taken.
    Done,
    /// An access unit of `pid` is complete; the chunk goes on at `next`.
    AccessUnit { pid: u16, next: usize },
}

/// The scan of two pieces, one after the other, is the scan of both: where the bytes of
/// a file are cut into chunks makes no difference.
pub proof fn lemma_run_concat(d: Demux, a: Seq<u8>, b: Seq<u8>, full: bool)
    ensures
        run(d, a + b, full) == run(run(d, a, full), b, full),
    decreases b.len(),
{
    if b.len() == 0 {
        assert(a + b =~= a);
    } else {
        lemma_run_concat(d, a, b.drop_last(), full);
        assert((a + b).drop_last() =~= a + b.drop_last());
        assert((a + b).last() == b.last());
    }
}

proof fn lemma_run_one(d: Demux, bytes: Seq<u8>, from: int, i: int, full: bool)
    requires
        0 <= from <= i < bytes.len(),
    ensures
        run(d, bytes.subrange(from, i + 1), full) == step(
            run(d, bytes.subrange(from, i), full),
            bytes[i],
            full,
        ),
{
    let s = bytes.subrange(from, i + 1);
    assert(s.drop_last() =~= bytes.subrange(from, i));
    assert(s.last() == bytes[i]);
}

proof fn lemma_payload_step(d: Demux, b: u8, full: bool)
    requires
        in_payload(d.parser),
    ensures
        step(d, b, full) == payload_byte(d, b),
{
    reveal(step);
}

impl TsStreamFile {
    /// Takes the second of the three header bytes.
    fn take_header_second(&mut self, parser: &mut TsPacketParser, b: u8, Ghost(p): Ghost<
        Seq<PlaylistView>,
    >)
        ensures
            (Demux { parser: final(parser)@, file: final(self)@, playlists: p }) == header_second(
                Demux { parser: old(parser)@, file: old(self)@, playlists: p },
                b,
            ),
    {
        broadcast use group_btree_axioms;

        let pid: u16 = parser.framing.pid.wrapping_add(b as u16);
        parser.framing.pid = pid;
        parser.framing.stream_present = self.streams.contains_key(&pid);
        let ghost states = self.stream_states@;
        let mut state = take_state(&mut self.stream_states, pid);
        state.core.total_packets = state.core.total_packets.wrapping_add(1);
        state.core.window_packets = state.core.window_packets.wrapping_add(1);
        let ghost counted = state;
        self.stream_states.insert(pid, state);
        proof {
            lemma_put_back(states, pid, counted);
        }
    }

    /// Completes the access unit of `pid` whose payload is being transferred, where one
    /// is.
    fn complete_unit(&mut self, pid: u16) -> (r: bool)
        ensures
            ({
                let state = state_of(old(self)@.stream_states, pid);
                &&& r == state.core.transfer_state
                &&& !r ==> final(self)@ == old(self)@
                &&& r ==> final(self)@ == (FileView {
                    stream_states: old(self)@.stream_states.insert(
                        pid,
                        StateView {
                            core: PesState {
                                transfer_state: false,
                                transfer_count: state.core.transfer_count.wrapping_add(1),
                                ..state.core
                            },
                            ..state
                        },
                    ),
                    ..old(self)@
                })
            }),
    {
        broadcast use group_btree_axioms;

        let transferring = match self.stream_states.get(&pid) {
            Some(state) => {
                assert(views(self.stream_states@)[pid] == state@);
                state.core.transfer_state
            },
            None => false,
        };
        if transferring {
            let ghost states = self.stream_states@;
            let mut state = take_state(&mut self.stream_states, pid);
            state.core.transfer_state = false;
            state.core.transfer_count = state.core.transfer_count.wrapping_add(1);
            let ghost complete = state;
            self.stream_states.insert(pid, state);
            proof {
                lemma_put_back(states, pid, complete);
            }
        }
        transferring
    }

    /// Takes the third of the three header bytes.
    fn take_header_third(&mut self, parser: &mut TsPacketParser, b: u8, Ghost(p): Ghost<
        Seq<PlaylistView>,
    >)
        requires
            old(parser)@.pending is None,
        ensures
            (Demux { parser: final(parser)@, file: final(self)@, playlists: p }) == header_third(
                Demux { parser: old(parser)@, file: old(self)@, playlists: p },
                b,
            ),
    {
        parser.framing.scrambled = b / 64 != 0;
        if b / 32 % 2 == 1 {
            parser.framing.adaption_next = true;
        }
        let pid: u16 = parser.framing.pid;
        if parser.framing.unit_start {
            if pid == 0 {
                parser.pat.start = true;
            } else if pid == parser.framing.pmt_pid {
                parser.pmt.start = true;
            } else if self.complete_unit(pid) {
                parser.pending = Some(pid);
            }
        }
    }

    /// Takes one of the three header bytes.
    fn take_header_byte(&mut self, parser: &mut TsPacketParser, b: u8, Ghost(p): Ghost<
        Seq<PlaylistView>,
    >)
        requires
            old(parser)@.pending is None,
            old(parser)@.framing.header_left > 0,
        ensures
            (Demux { parser: final(parser)@, file: final(self)@, playlists: p }) == header_byte(
                Demux { parser: old(parser)@, file: old(self)@, playlists: p },
                b,
            ),
    {
        let left: u8 = parser.framing.header_left - 1;
        parser.framing.packet_left = parser.framing.packet_left.wrapping_sub(1);
        parser.framing.header_left = left;
        if left == 2 {
            parser.framing.unit_start = b / 64 % 2 == 1;
            parser.framing.pid = (b % 32) as u16 * 0x100;
        } else if left == 1 {
            self.take_header_second(parser, b, Ghost(p));
        } else {
            self.take_header_third(parser, b, Ghost(p));
        }
    }

    /// Takes one byte that is not payload of a registered, clear stream.
    fn take_byte(&mut self, parser: &mut TsPacketParser, b: u8, full: bool, Ghost(p): Ghost<
        Seq<PlaylistView>,
    >)
        requires
            old(parser)@.pending is None,
            !in_payload(old(parser)@),
        ensures
            (Demux { parser: final(parser)@, file: final(self)@, playlists: p }) == step(
                Demux { parser: old(parser)@, file: old(self)@, playlists: p },
                b,
                full,
            ),
    {
        reveal(step);
        if !parser.framing.synced {
            if parser.framing.time_code_left > 0 {
                parser.framing.time_code_left = parser.framing.time_code_left - 1;
            } else if b == 0x47 {
                parser.framing.synced = true;
                parser.framing.packet_left = 187;
                parser.framing.time_code_left = 4;
                parser.framing.header_left = 3;
            }
        } else if parser.framing.header_left > 0 {
            self.take_header_byte(parser, b, Ghost(p));
        } else if parser.framing.adaption_next {
            let left: u8 = parser.framing.packet_left.wrapping_sub(1);
            parser.framing.packet_left = left;
            parser.framing.adaption_left = if b < left {
                b
            } else {
                left
            };
            parser.framing.adaption_next = false;
            parser.framing.variable_end = true;
        } else {
            if parser.framing.adaption_left > 0 {
                parser.framing.adaption_left = parser.framing.adaption_left - 1;
            } else if parser.framing.pid == 0 {
                let pmt_pid: u16 = parse_pat(
                    &mut parser.pat,
                    &mut parser.pat_table,
                    parser.framing.pmt_pid,
                    b,
                );
                parser.framing.pmt_pid = pmt_pid;
            } else if parser.framing.pid == parser.framing.pmt_pid {
                self.parse_pmt(parser, b, full);
            }
            let left: u8 = parser.framing.packet_left.wrapping_sub(1);
            parser.framing.packet_left = left;
            parser.framing.synced = left != 0;
        }
    }

    /// Takes payload bytes of a registered, clear stream from `from` on: up to the end of
    /// the packet or of the chunk, the completion of an access unit, or a timestamp that
    /// closes a window. Returns the index behind the last one.
    fn take_payload(
        &mut self,
        parser: &mut TsPacketParser,
        buffer: &[u8],
        from: usize,
        full: bool,
        playlists: &mut Vec<TsPlaylistFile>,
    ) -> (next: usize)
        requires
            from < buffer@.len(),
            in_payload(old(parser)@),
        ensures
            from < next <= buffer@.len(),
            demux(*final(self), *final(parser), final(playlists)@) == run(
                demux(*old(self), *old(parser), old(playlists)@),
                buffer@.subrange(from as int, next as int),
                full,
            ),
            run(
                demux(*old(self), *old(parser), old(playlists)@),
                buffer@.subrange(from as int, next - 1),
                full,
            ).parser.pending is None,
    {
        broadcast use group_btree_axioms;

        let ghost start = demux(*self, *parser, playlists@);
        let ghost mut cur = start;
        let ghost p = playlist_views(playlists@);
        let pid: u16 = parser.framing.pid;
        let ghost was = self@;
        let ghost states = self.stream_states@;
        let mut state = take_state(&mut self.stream_states, pid);
        let ghost rest = views(self.stream_states@);
        proof {
            assert(buffer@.subrange(from as int, from as int) =~= Seq::<u8>::empty());
            assert(cur.file.stream_states.remove(pid) =~= rest);
        }
        let mut mark: Option<WindowMark> = None;
        let mut more = true;
        let mut i: usize = from;
        while more && i < buffer.len()
            invariant
                from <= i <= buffer@.len(),
                from < buffer@.len(),
                i == from ==> more,
                i > from ==> cur.file.stream_states.contains_key(pid),
                i > from ==> run(
                    start,
                    buffer@.subrange(from as int, i - 1),
                    full,
                ).parser.pending is None,
                state_of(cur.file.stream_states, pid) == state@,
                cur.file.stream_states.remove(pid) == rest,
                cur.file == (FileView { stream_states: cur.file.stream_states, ..was }),
                self@ == (FileView { stream_states: rest, ..was }),
                cur.parser == parser@,
                cur.playlists == p,
                parser@.framing.pid == pid,
                more ==> in_payload(parser@) && mark is None,
                match mark {
                    Some(m) => run(
                        start,
                        buffer@.subrange(from as int, i as int),
                        full,
                    ) == marked(cur, pid, m),
                    None => run(start, buffer@.subrange(from as int, i as int), full) == cur,
                },
            decreases buffer@.len() - i,
        {
            let b: u8 = buffer[i];
            let left: u8 = parser.framing.packet_left.wrapping_sub(1);
            let ghost before = cur;
            let (complete, seen) = state.take_byte(&mut parser.framing.variable_end, left, b);
            mark = seen;
            parser.framing.packet_left = left;
            parser.framing.synced = left != 0;
            if complete {
                parser.pending = Some(pid);
            }
            more = !complete && left != 0 && mark.is_none();
            proof {
                cur = payload_taken(before, b).0;
                assert(cur.parser == parser@);
                assert(cur.file.stream_states.remove(pid) =~= rest);
                lemma_run_one(start, buffer@, from as int, i as int, full);
                lemma_payload_step(before, b, full);
            }
            i = i + 1;
        }
        let ghost done = state;
        let ghost others = self.stream_states@;
        self.stream_states.insert(pid, state);
        proof {
            lemma_views_insert(others, pid, done);
            assert(cur.file.stream_states =~= rest.insert(pid, done@));
        }
        if let Some(m) = mark {
            self.update_stream_bitrates(pid, m.marker, m.interval, playlists);
            if m.dts < parser.pts_first {
                parser.pts_first = m.dts;
            }
            if m.dts > parser.pts_last {
                parser.pts_last = m.dts;
            }
            self.length = parser.pts_last.wrapping_sub(parser.pts_first);
        }
        i
    }

    /// Takes the bytes of a chunk from `from` on, up to the first complete access unit or
    /// to the end of the chunk.
    ///
    /// A complete access unit goes to [`scan_stream`](Self::scan_stream), and the parser
    /// is told with [`resume`](TsPacketParser::resume), before the rest of the chunk is
    /// taken.
    pub fn parse_chunk(
        &mut self,
        parser: &mut TsPacketParser,
        buffer: &[u8],
        from: usize,
        full: bool,
        playlists: &mut Vec<TsPlaylistFile>,
    ) -> (r: ChunkStop)
        requires
            from <= buffer@.len(),
            old(parser)@.pending is None,
        ensures
            match r {
                ChunkStop::Done => {
                    let d = run(
                        demux(*old(self), *old(parser), old(playlists)@),
                        buffer@.subrange(from as int, buffer@.len() as int),
                        full,
                    );
                    &&& d.parser.pending is None
                    &&& demux(*final(self), *final(parser), final(playlists)@) == d
                },
                ChunkStop::AccessUnit { pid, next } => {
                    let d = run(
                        demux(*old(self), *old(parser), old(playlists)@),
                        buffer@.subrange(from as int, next as int),
                        full,
                    );
                    &&& from < next <= buffer@.len()
                    &&& run(
                        demux(*old(self), *old(parser), old(playlists)@),
                        buffer@.subrange(from as int, next - 1),
                        full,
                    ).parser.pending is None
                    &&& d.parser.pending == Some(pid)
                    &&& demux(*final(self), *final(parser), final(playlists)@) == d
                },
            },
    {
        let ghost start = demux(*self, *parser, playlists@);
        let mut i: usize = from;
        proof {
            assert(buffer@.subrange(from as int, from as int) =~= Seq::<u8>::empty());
        }
        while i < buffer.len()
            invariant
                from <= i <= buffer@.len(),
                parser@.pending is None,
                start == demux(*old(self), *old(parser), old(playlists)@),
                demux(*self, *parser, playlists@) == run(
                    start,
                    buffer@.subrange(from as int, i as int),
                    full,
                ),
            decreases buffer@.len() - i,
        {
            let ghost here = demux(*self, *parser, playlists@);
            let ghost at = i as int;
            let f = parser.framing;
            let payload = f.synced && f.header_left == 0 && !f.adaption_next && f.adaption_left == 0
                && f.pid != 0 && f.pid != f.pmt_pid && f.stream_present && !f.scrambled;
            if payload {
                i = self.take_payload(parser, buffer, i, full, playlists);
                proof {
                    lemma_run_concat(
                        start,
                        buffer@.subrange(from as int, at),
                        buffer@.subrange(at, i as int),
                        full,
                    );
                    assert(buffer@.subrange(from as int, at) + buffer@.subrange(at, i as int)
                        =~= buffer@.subrange(from as int, i as int));
                    lemma_run_concat(
                        start,
                        buffer@.subrange(from as int, at),
                        buffer@.subrange(at, i - 1),
                        full,
                    );
                    assert(buffer@.subrange(from as int, at) + buffer@.subrange(at, i - 1)
                        =~= buffer@.subrange(from as int, i - 1));
                }
            } else {
                self.take_byte(parser, buffer[i], full, Ghost(here.playlists));
                proof {
                    lemma_run_one(start, buffer@, from as int, at, full);
                }
                i = i + 1;
            }
            if let Some(pid) = parser.pending {
                return ChunkStop::AccessUnit { pid, next: i };
            }
        }
        proof {
            assert(i as int == buffer@.len());
        }
        ChunkStop::Done
    }
}

impl TsPacketParser {
    /// Goes on after an access unit has been analysed.
    pub fn resume(&mut self)
        ensures
            final(self)@ == (ParserView { pending: None, ..old(self)@ }),
    {
        self.pending = None;
    }
}

} // verus!
