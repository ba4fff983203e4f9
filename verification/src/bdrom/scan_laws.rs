//! What the scan of a stream file rests on: its name, its bytes and the playlists.

use vstd::prelude::*;

use super::m2ts::{finished_over, flushed, pmt_walk, registered, step, updated, Demux, FileView};
use super::mpls::PlaylistView;
use super::psi::{byte_or_zero, high_nibble, pid_at};
use super::scan::{
    analysis, blank_scan, counted, cut, joined, lemma_chunks_hold_the_bytes,
    lemma_full_scan_counts_every_byte, outcome_of, scan_step, scanned, step_of, AccessUnits,
    Outcome, Scan,
};
use crate::error::Failure;
use crate::maps::sorted_keys;

verus! {

/// A file that is read from another source.
pub open spec fn sourced(file: FileView, source: Option<Seq<char>>) -> FileView {
    FileView { interleaved_file: source, ..file }
}

/// A scan whose file is read from another source.
spec fn demux_sourced(d: Demux, source: Option<Seq<char>>) -> Demux {
    Demux { file: sourced(d.file, source), ..d }
}

/// A scan whose file is read from another source.
spec fn scan_sourced(s: Scan, source: Option<Seq<char>>) -> Scan {
    Scan { demux: demux_sourced(s.demux, source), ..s }
}

proof fn lemma_flushed_sourced(
    file: FileView,
    ps: Seq<PlaylistView>,
    pids: Seq<u16>,
    n: int,
    pts_pid: u16,
    pts: i64,
    interval: i64,
    source: Option<Seq<char>>,
)
    ensures
        ({
            let (f, p) = flushed(file, ps, pids, n, pts_pid, pts, interval);
            flushed(sourced(file, source), ps, pids, n, pts_pid, pts, interval) == (
                sourced(f, source),
                p,
            )
        }),
    decreases n,
{
    if n > 0 {
        lemma_flushed_sourced(file, ps, pids, n - 1, pts_pid, pts, interval, source);
    }
}

proof fn lemma_updated_sourced(
    file: FileView,
    ps: Seq<PlaylistView>,
    pts_pid: u16,
    pts: i64,
    interval: i64,
    source: Option<Seq<char>>,
)
    ensures
        ({
            let (f, p) = updated(file, ps, pts_pid, pts, interval);
            updated(sourced(file, source), ps, pts_pid, pts, interval) == (sourced(f, source), p)
        }),
{
    reveal(updated);
    let pids = sorted_keys(file.stream_states.dom());
    lemma_flushed_sourced(file, ps, pids, pids.len() as int, pts_pid, pts, interval, source);
}

proof fn lemma_pmt_walk_sourced(
    file: FileView,
    table: Seq<u8>,
    bound: int,
    k: int,
    full: bool,
    source: Option<Seq<char>>,
)
    ensures
        pmt_walk(sourced(file, source), table, bound, k, full) == sourced(
            pmt_walk(file, table, bound, k, full),
            source,
        ),
    decreases
            if bound > k {
                bound - k
            } else {
                0
            },
{
    if 0 <= k < bound {
        let pid = pid_at(table, k + 1);
        let next = k + 5 + high_nibble(byte_or_zero(table, k + 3)) + byte_or_zero(table, k + 4);
        if file.streams.contains_key(pid) {
            lemma_pmt_walk_sourced(file, table, bound, next, full, source);
        } else {
            let f = registered(file, pid, byte_or_zero(table, k), full);
            assert(registered(sourced(file, source), pid, byte_or_zero(table, k), full) == sourced(
                f,
                source,
            ));
            if f.streams.contains_key(pid) {
                lemma_pmt_walk_sourced(f, table, bound, next, full, source);
            }
        }
    }
}

proof fn lemma_step_sourced(d: Demux, b: u8, full: bool, source: Option<Seq<char>>)
    ensures
        step(demux_sourced(d, source), b, full) == demux_sourced(step(d, b, full), source),
{
    reveal(step);
    assert forall|file: FileView, pid: u16, pts: i64, interval: i64| true implies {
        let (f, p) = updated(file, d.playlists, pid, pts, interval);
        #[trigger] updated(sourced(file, source), d.playlists, pid, pts, interval) == (
            sourced(f, source),
            p,
        )
    } by {
        lemma_updated_sourced(file, d.playlists, pid, pts, interval, source);
    }
    assert forall|table: Seq<u8>, bound: int| #[trigger]
        pmt_walk(sourced(d.file, source), table, bound, 0, full) == sourced(
            pmt_walk(d.file, table, bound, 0, full),
            source,
        ) by {
        lemma_pmt_walk_sourced(d.file, table, bound, 0, full, source);
    }
    let f = d.parser.framing;
    if d.parser.pending is None && f.synced && f.header_left == 0 && !f.adaption_next
        && f.adaption_left == 0 && f.pid != 0 && f.pid != f.pmt_pid && f.stream_present
        && !f.scrambled {
        let (e, mark) = super::m2ts::payload_taken(d, b);
        let (g, other) = super::m2ts::payload_taken(demux_sourced(d, source), b);
        assert(g == demux_sourced(e, source) && other == mark);
        if let Some(m) = mark {
            lemma_updated_sourced(e.file, e.playlists, f.pid, m.marker, m.interval, source);
        }
    }
}

proof fn lemma_scanned_sourced<A: AccessUnits>(
    units: A,
    s: Scan,
    bytes: Seq<u8>,
    full: bool,
    source: Option<Seq<char>>,
)
    ensures
        scanned(scan_sourced(s, source), bytes, full, analysis(units, full)) == scan_sourced(
            scanned(s, bytes, full, analysis(units, full)),
            source,
        ),
    decreases bytes.len(),
{
    if bytes.len() > 0 {
        let analyse = analysis(units, full);
        lemma_scanned_sourced(units, s, bytes.drop_last(), full, source);
        let t = scanned(s, bytes.drop_last(), full, analyse);
        lemma_step_sourced(t.demux, bytes.last(), full, source);
        let d = step(t.demux, bytes.last(), full);
        if let Some(pid) = d.parser.pending {
            assert(analyse(sourced(d.file, source), pid) == analyse(d.file, pid));
        }
        assert(scan_step(scan_sourced(t, source), bytes.last(), full, analyse) == scan_sourced(
            scan_step(t, bytes.last(), full, analyse),
            source,
        ));
    }
}

proof fn lemma_counted_sourced<A: AccessUnits>(
    units: A,
    s: Scan,
    chunks: Seq<Seq<u8>>,
    so_far: u64,
    full: bool,
    source: Option<Seq<char>>,
)
    ensures
        counted(scan_sourced(s, source), chunks, so_far, full, analysis(units, full)) == counted(
            s,
            chunks,
            so_far,
            full,
            analysis(units, full),
        ),
    decreases chunks.len(),
{
    if chunks.len() > 0 {
        lemma_scanned_sourced(units, s, chunks[0], full, source);
        lemma_counted_sourced(
            units,
            scanned(s, chunks[0], full, analysis(units, full)),
            chunks.drop_first(),
            so_far.wrapping_add(chunks[0].len() as u64),
            full,
            source,
        );
    }
}

proof fn lemma_finished_sourced(
    file: FileView,
    ps: Seq<PlaylistView>,
    pids: Seq<u16>,
    n: int,
    source: Option<Seq<char>>,
)
    ensures
        ({
            let (f, p, last, diff) = finished_over(file, ps, pids, n);
            finished_over(sourced(file, source), ps, pids, n) == (
                sourced(f, source),
                p,
                last,
                diff,
            )
        }),
    decreases n,
{
    if n > 0 {
        lemma_finished_sourced(file, ps, pids, n - 1, source);
        let (f, p, _, _) = finished_over(file, ps, pids, n - 1);
        let (_, _, last, diff) = finished_over(file, ps, pids, n);
        lemma_updated_sourced(f, p, pids[n - 1], last, diff, source);
    }
}

/// A scan rests on the name of the file, its chunks and the playlists alone. What the file
/// held before, from an earlier scan, makes no difference, so a file that is scanned again
/// comes out as one that is scanned for the first time. Which source it is read from stays
/// as it was, and makes no difference either.
pub proof fn lemma_a_scan_rests_on_name_and_bytes<A: AccessUnits>(
    units: A,
    a: FileView,
    b: FileView,
    playlists: Seq<PlaylistView>,
    chunks: Seq<Seq<u8>>,
    failure: Option<Failure>,
    full: bool,
)
    requires
        a.name == b.name,
        playlists.len() > 0,
    ensures
        ({
            let x = outcome_of(units, a, playlists, chunks, failure, full);
            let y = outcome_of(units, b, playlists, chunks, failure, full);
            x == (Outcome { file: sourced(y.file, a.interleaved_file), ..y })
        }),
{
    let source = a.interleaved_file;
    let s = blank_scan(b, playlists);
    assert(blank_scan(a, playlists) == scan_sourced(s, source));
    lemma_scanned_sourced(units, s, joined(chunks), full, source);
    lemma_counted_sourced(units, s, chunks, 0, full, source);
    let t = scanned(s, joined(chunks), full, analysis(units, full));
    let pids = sorted_keys(t.demux.file.streams.dom());
    lemma_finished_sourced(t.demux.file, t.demux.playlists, pids, pids.len() as int, source);
}

/// A full scan rests on the name of the file, its bytes and the playlists alone: not on the
/// chunks in which the bytes come, on the source that they come from, or on what the file
/// held before.
pub proof fn lemma_a_full_scan_rests_on_name_and_bytes<A: AccessUnits>(
    units: A,
    a: FileView,
    b: FileView,
    playlists: Seq<PlaylistView>,
    x: Seq<Seq<u8>>,
    y: Seq<Seq<u8>>,
    failure: Option<Failure>,
)
    requires
        a.name == b.name,
        playlists.len() > 0,
        joined(x) == joined(y),
        joined(x).len() <= u64::MAX,
    ensures
        ({
            let o = outcome_of(units, a, playlists, x, failure, true);
            let p = outcome_of(units, b, playlists, y, failure, true);
            o == (Outcome { file: sourced(p.file, a.interleaved_file), ..p })
        }),
{
    lemma_a_scan_rests_on_name_and_bytes(units, a, b, playlists, x, failure, true);
    lemma_full_scan_counts_every_byte(units, b, playlists, x, failure);
    lemma_full_scan_counts_every_byte(units, b, playlists, y, failure);
}

/// A full scan of the same bytes comes out the same with any two chunk sizes.
pub proof fn lemma_any_two_chunk_sizes_agree<A: AccessUnits>(
    units: A,
    file: FileView,
    playlists: Seq<PlaylistView>,
    bytes: Seq<u8>,
    a: usize,
    b: usize,
    failure: Option<Failure>,
)
    requires
        bytes.len() <= u64::MAX,
    ensures
        outcome_of(units, file, playlists, cut(bytes, 0, step_of(a)), failure, true) == outcome_of(
            units,
            file,
            playlists,
            cut(bytes, 0, step_of(b)),
            failure,
            true,
        ),
{
    lemma_chunks_hold_the_bytes(bytes, a);
    lemma_chunks_hold_the_bytes(bytes, b);
    if playlists.len() > 0 {
        lemma_a_full_scan_rests_on_name_and_bytes(
            units,
            file,
            file,
            playlists,
            cut(bytes, 0, step_of(a)),
            cut(bytes, 0, step_of(b)),
            failure,
        );
    }
}

} // verus!
