//! The tallies of a scan only grow, whatever the bytes are.

use vstd::prelude::*;

use super::clpi::ClipView;
use super::credit::credited_playlist;
use super::demux_laws::lemma_window_counts_once_per_clip;
use super::m2ts::{
    analysed, blank_file, created, finished_over, flushed, flushed_file, open_window, payload_taken,
    pmt_walk, rated_playlists, registered, state_of, stays_open, step, updated, AccessUnitScan,
    Demux, FileView,
};
use super::mpls::PlaylistView;
use super::pes::StateView;
use super::psi::{byte_or_zero, high_nibble, pid_at};
use super::scan::{analysis, blank_scan, joined, outcome_of, scan_step, scanned, AccessUnits, Scan};
use crate::error::Failure;
use crate::maps::sorted_keys;

verus! {

/// What the open window of a PID holds: its payload bytes, or its packets.
pub open spec fn in_window(s: StateView, bytes: bool) -> u64 {
    if bytes {
        s.core.window_bytes
    } else {
        s.core.window_packets
    }
}

/// What the open windows of the PIDs below `n` hold.
pub open spec fn in_windows(states: Map<u16, StateView>, bytes: bool, n: int) -> int
    decreases n,
{
    if n <= 0 {
        0
    } else {
        in_windows(states, bytes, n - 1) + in_window(state_of(states, (n - 1) as u16), bytes)
    }
}

/// What all the open windows of a file hold.
pub open spec fn pending(f: FileView, bytes: bool) -> int {
    in_windows(f.stream_states, bytes, 0x1_0000)
}

/// A clip's tally: its payload bytes, or its packets.
pub open spec fn tally(c: ClipView, bytes: bool) -> u64 {
    if bytes {
        c.payload_bytes
    } else {
        c.packet_count
    }
}

/// Whether `n` bytes more can make no counter of a scan pass the end of its range.
pub open spec fn has_room(d: Demux, n: int) -> bool {
    &&& pending(d.file, true) + n <= u64::MAX
    &&& pending(d.file, false) + n <= u64::MAX
    &&& forall|i: int, k: int, bytes: bool|
        0 <= i < d.playlists.len() && 0 <= k < d.playlists[i].clips.len() ==> tally(
            #[trigger] d.playlists[i].clips[k],
            bytes,
        ) + #[trigger] pending(d.file, bytes) + n <= u64::MAX
}

/// Whether no tally of the one list of playlists is above that of the other.
pub open spec fn grown(ps: Seq<PlaylistView>, qs: Seq<PlaylistView>) -> bool {
    &&& ps.len() == qs.len()
    &&& forall|i: int| 0 <= i < ps.len() ==> (#[trigger] ps[i]).clips.len() == qs[i].clips.len()
    &&& forall|i: int, k: int|
        0 <= i < ps.len() && 0 <= k < ps[i].clips.len() ==> {
            &&& (#[trigger] ps[i].clips[k]).payload_bytes <= qs[i].clips[k].payload_bytes
            &&& ps[i].clips[k].packet_count <= qs[i].clips[k].packet_count
            &&& ps[i].clips[k].packet_ticks <= qs[i].clips[k].packet_ticks
        }
}

proof fn lemma_grown_goes_on(
    ps: Seq<PlaylistView>,
    qs: Seq<PlaylistView>,
    rs: Seq<PlaylistView>,
)
    requires
        grown(ps, qs),
        grown(qs, rs),
    ensures
        grown(ps, rs),
{
    assert forall|i: int| 0 <= i < ps.len() implies (#[trigger] ps[i]).clips.len()
        == rs[i].clips.len() by {
        assert(ps[i].clips.len() == qs[i].clips.len());
    }
    assert forall|i: int, k: int| 0 <= i < ps.len() && 0 <= k < ps[i].clips.len() implies {
        &&& (#[trigger] ps[i].clips[k]).payload_bytes <= rs[i].clips[k].payload_bytes
        &&& ps[i].clips[k].packet_count <= rs[i].clips[k].packet_count
        &&& ps[i].clips[k].packet_ticks <= rs[i].clips[k].packet_ticks
    } by {
        assert(ps[i].clips.len() == qs[i].clips.len());
        assert(qs[i].clips[k].payload_bytes <= rs[i].clips[k].payload_bytes);
    }
}

proof fn lemma_in_windows_nonneg(states: Map<u16, StateView>, bytes: bool, n: int, pid: u16)
    ensures
        in_windows(states, bytes, n) >= 0,
        (pid as int) < n ==> in_windows(states, bytes, n) >= in_window(
            state_of(states, pid),
            bytes,
        ),
    decreases n,
{
    if n > 0 {
        lemma_in_windows_nonneg(states, bytes, n - 1, pid);
    }
}

proof fn lemma_in_windows_insert(
    states: Map<u16, StateView>,
    pid: u16,
    s: StateView,
    bytes: bool,
    n: int,
)
    requires
        n <= 0x1_0000,
    ensures
        in_windows(states.insert(pid, s), bytes, n) == in_windows(states, bytes, n) + (if (
        pid as int) < n {
            in_window(s, bytes) - in_window(state_of(states, pid), bytes)
        } else {
            0
        }),
    decreases n,
{
    if n > 0 {
        lemma_in_windows_insert(states, pid, s, bytes, n - 1);
        let last = (n - 1) as u16;
        if last != pid {
            assert(state_of(states.insert(pid, s), last) == state_of(states, last));
        }
    }
}

/// What a changed state of one PID does to the open windows.
proof fn lemma_pending_insert(f: FileView, pid: u16, s: StateView, bytes: bool)
    ensures
        pending(FileView { stream_states: f.stream_states.insert(pid, s), ..f }, bytes)
            == pending(f, bytes) + in_window(s, bytes) - in_window(
            state_of(f.stream_states, pid),
            bytes,
        ),
        pending(f, bytes) >= in_window(state_of(f.stream_states, pid), bytes),
        pending(f, bytes) >= 0,
{
    lemma_in_windows_insert(f.stream_states, pid, s, bytes, 0x1_0000);
    lemma_in_windows_nonneg(f.stream_states, bytes, 0x1_0000, pid);
}

// ---- closing windows ----

proof fn lemma_flush_grows(d: Demux, pid: u16, pts: i64, interval: i64, n: int)
    requires
        has_room(d, n),
        0 <= n,
    ensures
        ({
            let w = open_window(d.file, pid, pts, interval);
            let e = Demux {
                file: flushed_file(d.file, pid, pts, interval),
                playlists: d.playlists.map_values(|p: PlaylistView| credited_playlist(p, w)),
                ..d
            };
            has_room(e, n) && grown(d.playlists, e.playlists)
        }),
{
    let w = open_window(d.file, pid, pts, interval);
    let file = flushed_file(d.file, pid, pts, interval);
    let qs = d.playlists.map_values(|p: PlaylistView| credited_playlist(p, w));
    let s = file.stream_states[pid];
    lemma_pending_insert(d.file, pid, s, true);
    lemma_pending_insert(d.file, pid, s, false);
    assert(pending(file, true) == pending(d.file, true) - w.bytes);
    assert(pending(file, false) == pending(d.file, false) - w.packets);
    assert forall|i: int| 0 <= i < d.playlists.len() implies (#[trigger] d.playlists[i]).clips.len()
        == qs[i].clips.len() by {
        lemma_window_counts_once_per_clip(d.playlists[i], w);
    }
    assert forall|i: int, k: int|
        0 <= i < d.playlists.len() && 0 <= k < d.playlists[i].clips.len() implies {
        let c = #[trigger] d.playlists[i].clips[k];
        &&& c.payload_bytes <= qs[i].clips[k].payload_bytes <= c.payload_bytes + w.bytes
        &&& c.packet_count <= qs[i].clips[k].packet_count <= c.packet_count + w.packets
        &&& c.packet_ticks <= qs[i].clips[k].packet_ticks
    } by {
        lemma_window_counts_once_per_clip(d.playlists[i], w);
        let c = d.playlists[i].clips[k];
        assert(tally(c, true) + pending(d.file, true) + n <= u64::MAX);
        assert(tally(c, false) + pending(d.file, false) + n <= u64::MAX);
        assert(qs[i] == credited_playlist(d.playlists[i], w));
    }
    assert forall|i: int, k: int, bytes: bool|
        0 <= i < qs.len() && 0 <= k < qs[i].clips.len() implies tally(
        #[trigger] qs[i].clips[k],
        bytes,
    ) + #[trigger] pending(file, bytes) + n <= u64::MAX by {
        assert(d.playlists[i].clips.len() == qs[i].clips.len());
        let c = d.playlists[i].clips[k];
        assert(tally(c, bytes) + pending(d.file, bytes) + n <= u64::MAX);
    }
}

proof fn lemma_flushed_grows(
    d: Demux,
    pids: Seq<u16>,
    m: int,
    pts_pid: u16,
    pts: i64,
    interval: i64,
    n: int,
)
    requires
        has_room(d, n),
        0 <= n,
    ensures
        ({
            let (f, qs) = flushed(d.file, d.playlists, pids, m, pts_pid, pts, interval);
            has_room(Demux { file: f, playlists: qs, ..d }, n) && grown(d.playlists, qs)
        }),
    decreases m,
{
    if m > 0 {
        lemma_flushed_grows(d, pids, m - 1, pts_pid, pts, interval, n);
        let (f, qs) = flushed(d.file, d.playlists, pids, m - 1, pts_pid, pts, interval);
        let pid = pids[m - 1];
        if !stays_open(f, pid, pts_pid) {
            lemma_flush_grows(Demux { file: f, playlists: qs, ..d }, pid, pts, interval, n);
            let w = open_window(f, pid, pts, interval);
            lemma_grown_goes_on(
                d.playlists,
                qs,
                qs.map_values(|p: PlaylistView| credited_playlist(p, w)),
            );
        }
    }
}

proof fn lemma_updated_grows(d: Demux, pts_pid: u16, pts: i64, interval: i64, n: int)
    requires
        has_room(d, n),
        0 <= n,
    ensures
        ({
            let (f, qs) = updated(d.file, d.playlists, pts_pid, pts, interval);
            has_room(Demux { file: f, playlists: qs, ..d }, n) && grown(d.playlists, qs)
        }),
{
    reveal(updated);
    let pids = sorted_keys(d.file.stream_states.dom());
    lemma_flushed_grows(d, pids, pids.len() as int, pts_pid, pts, interval, n);
    let (f, qs) = flushed(d.file, d.playlists, pids, pids.len() as int, pts_pid, pts, interval);
    let e = Demux { file: f, playlists: qs, ..d };
    let rs = rated_playlists(qs, f.name);
    assert forall|i: int| 0 <= i < qs.len() implies (#[trigger] rs[i]).clips == qs[i].clips by {}
    assert forall|i: int, k: int, bytes: bool|
        0 <= i < rs.len() && 0 <= k < rs[i].clips.len() implies tally(
        #[trigger] rs[i].clips[k],
        bytes,
    ) + #[trigger] pending(f, bytes) + n <= u64::MAX by {
        assert(rs[i].clips == qs[i].clips);
        assert(tally(e.playlists[i].clips[k], bytes) + pending(e.file, bytes) + n <= u64::MAX);
    }
    assert(grown(qs, rs)) by {
        assert forall|i: int| 0 <= i < qs.len() implies (#[trigger] qs[i]).clips.len()
            == rs[i].clips.len() by {
            assert(rs[i].clips == qs[i].clips);
        }
        assert forall|i: int, k: int| 0 <= i < qs.len() && 0 <= k < qs[i].clips.len() implies {
            &&& (#[trigger] qs[i].clips[k]).payload_bytes <= rs[i].clips[k].payload_bytes
            &&& qs[i].clips[k].packet_count <= rs[i].clips[k].packet_count
            &&& qs[i].clips[k].packet_ticks <= rs[i].clips[k].packet_ticks
        } by {
            assert(rs[i].clips == qs[i].clips);
        }
    }
    lemma_grown_goes_on(d.playlists, qs, rs);
}

// ---- one byte ----

/// A scan whose file has other windows, within a byte more, still has room.
proof fn lemma_room_after(d: Demux, e: Demux, n: int)
    requires
        has_room(d, n + 1),
        e.playlists == d.playlists,
        pending(e.file, true) <= pending(d.file, true) + 1,
        pending(e.file, false) <= pending(d.file, false) + 1,
    ensures
        has_room(e, n),
        grown(d.playlists, e.playlists),
{
    assert forall|i: int, k: int, bytes: bool|
        0 <= i < e.playlists.len() && 0 <= k < e.playlists[i].clips.len() implies tally(
        #[trigger] e.playlists[i].clips[k],
        bytes,
    ) + #[trigger] pending(e.file, bytes) + n <= u64::MAX by {
        assert(tally(d.playlists[i].clips[k], bytes) + pending(d.file, bytes) + n + 1 <= u64::MAX);
    }
}

proof fn lemma_registered_counts_nothing(f: FileView, pid: u16, code: u8, full: bool, bytes: bool)
    ensures
        pending(registered(f, pid, code, full), bytes) == pending(f, bytes),
{
    let g = created(f, pid, code);
    if g.stream_states != f.stream_states {
        lemma_pending_insert(f, pid, g.stream_states[pid], bytes);
    }
    assert(pending(g, bytes) == pending(f, bytes));
}

proof fn lemma_walk_counts_nothing(
    f: FileView,
    table: Seq<u8>,
    bound: int,
    k: int,
    full: bool,
    bytes: bool,
)
    ensures
        pending(pmt_walk(f, table, bound, k, full), bytes) == pending(f, bytes),
    decreases
            if bound > k {
                bound - k
            } else {
                0
            },
{
    if 0 <= k < bound {
        let pid = pid_at(table, k + 1);
        let next = k + 5 + high_nibble(byte_or_zero(table, k + 3)) + byte_or_zero(table, k + 4);
        if f.streams.contains_key(pid) {
            lemma_walk_counts_nothing(f, table, bound, next, full, bytes);
        } else {
            let g = registered(f, pid, byte_or_zero(table, k), full);
            lemma_registered_counts_nothing(f, pid, byte_or_zero(table, k), full, bytes);
            if g.streams.contains_key(pid) {
                lemma_walk_counts_nothing(g, table, bound, next, full, bytes);
            }
        }
    }
}

proof fn lemma_step_grows(d: Demux, b: u8, full: bool, n: int)
    requires
        has_room(d, n + 1),
        0 <= n,
    ensures
        has_room(step(d, b, full), n),
        grown(d.playlists, step(d, b, full).playlists),
{
    reveal(step);
    let f = d.parser.framing;
    let e = step(d, b, full);
    if d.parser.pending is Some || !f.synced {
        lemma_room_after(d, e, n);
    } else if f.header_left > 0 {
        let pid = e.parser.framing.pid;
        if e.file.stream_states != d.file.stream_states {
            lemma_pending_insert(d.file, pid, e.file.stream_states[pid], true);
            lemma_pending_insert(d.file, pid, e.file.stream_states[pid], false);
        }
        lemma_room_after(d, e, n);
    } else if f.adaption_next || f.adaption_left > 0 {
        lemma_room_after(d, e, n);
    } else if f.pid == 0 {
        lemma_room_after(d, e, n);
    } else if f.pid == f.pmt_pid {
        assert forall|table: Seq<u8>, bound: int, bytes: bool|
            pending(#[trigger] pmt_walk(d.file, table, bound, 0, full), bytes) == #[trigger] pending(
                d.file,
                bytes,
            ) by {
            lemma_walk_counts_nothing(d.file, table, bound, 0, full, bytes);
        }
        lemma_room_after(d, e, n);
    } else if f.stream_present && !f.scrambled {
        let (g, mark) = payload_taken(d, b);
        lemma_pending_insert(d.file, f.pid, g.file.stream_states[f.pid], true);
        lemma_pending_insert(d.file, f.pid, g.file.stream_states[f.pid], false);
        lemma_room_after(d, g, n);
        match mark {
            Some(m) => {
                lemma_updated_grows(g, f.pid, m.marker, m.interval, n);
                let (file, qs) = updated(g.file, g.playlists, f.pid, m.marker, m.interval);
                let h = Demux { file, playlists: qs, ..g };
                assert(pending(e.file, true) == pending(file, true));
                assert(pending(e.file, false) == pending(file, false));
                assert forall|i: int, k: int, bytes: bool|
                    0 <= i < e.playlists.len() && 0 <= k < e.playlists[i].clips.len() implies tally(
                    #[trigger] e.playlists[i].clips[k],
                    bytes,
                ) + #[trigger] pending(e.file, bytes) + n <= u64::MAX by {
                    assert(tally(h.playlists[i].clips[k], bytes) + pending(h.file, bytes) + n
                        <= u64::MAX);
                }
            },
            None => {},
        }
    } else {
        lemma_room_after(d, e, n);
    }
}

proof fn lemma_analysis_counts_nothing(
    f: FileView,
    pid: u16,
    scan: Option<AccessUnitScan>,
    bytes: bool,
)
    ensures
        pending(analysed(f, pid, scan), bytes) == pending(f, bytes),
{
    let g = analysed(f, pid, scan);
    lemma_pending_insert(f, pid, g.stream_states[pid], bytes);
}

proof fn lemma_scanned_grows(
    s: Scan,
    bytes: Seq<u8>,
    full: bool,
    analyse: spec_fn(FileView, u16) -> Option<AccessUnitScan>,
    n: int,
)
    requires
        has_room(s.demux, n + bytes.len()),
        0 <= n,
    ensures
        has_room(scanned(s, bytes, full, analyse).demux, n),
        grown(s.demux.playlists, scanned(s, bytes, full, analyse).demux.playlists),
    decreases bytes.len(),
{
    if bytes.len() > 0 {
        lemma_scanned_grows(s, bytes.drop_last(), full, analyse, n + 1);
        let a = scanned(s, bytes.drop_last(), full, analyse);
        let t = scan_step(a, bytes.last(), full, analyse);
        lemma_step_grows(a.demux, bytes.last(), full, n);
        let d = step(a.demux, bytes.last(), full);
        if a.finished {
            assert forall|i: int, k: int, by: bool|
                0 <= i < a.demux.playlists.len() && 0 <= k < a.demux.playlists[i].clips.len()
                    implies tally(#[trigger] a.demux.playlists[i].clips[k], by)
                + #[trigger] pending(a.demux.file, by) + n <= u64::MAX by {
                assert(tally(a.demux.playlists[i].clips[k], by) + pending(a.demux.file, by) + (n
                    + 1) <= u64::MAX);
            }
        } else {
            match d.parser.pending {
                Some(pid) => {
                    lemma_analysis_counts_nothing(d.file, pid, analyse(d.file, pid), true);
                    lemma_analysis_counts_nothing(d.file, pid, analyse(d.file, pid), false);
                    assert forall|i: int, k: int, by: bool|
                        0 <= i < t.demux.playlists.len() && 0 <= k
                            < t.demux.playlists[i].clips.len() implies tally(
                        #[trigger] t.demux.playlists[i].clips[k],
                        by,
                    ) + #[trigger] pending(t.demux.file, by) + n <= u64::MAX by {
                        assert(tally(d.playlists[i].clips[k], by) + pending(d.file, by) + n
                            <= u64::MAX);
                    }
                },
                None => {},
            }
            lemma_grown_goes_on(s.demux.playlists, a.demux.playlists, d.playlists);
        }
    }
}

/// Within a scan the tallies of the clips only grow: from any point of it on, more bytes
/// take nothing back. This is for a scan whose counters do not pass the end of their range.
pub proof fn lemma_more_bytes_take_nothing_back(
    s: Scan,
    bytes: Seq<u8>,
    full: bool,
    analyse: spec_fn(FileView, u16) -> Option<AccessUnitScan>,
)
    requires
        has_room(s.demux, bytes.len() as int),
    ensures
        grown(s.demux.playlists, scanned(s, bytes, full, analyse).demux.playlists),
{
    lemma_scanned_grows(s, bytes, full, analyse, 0);
}

proof fn lemma_finish_grows(d: Demux, start: FileView, pids: Seq<u16>, m: int)
    requires
        has_room(d, 0),
        start == d.file,
    ensures
        ({
            let (f, qs, _, _) = finished_over(start, d.playlists, pids, m);
            has_room(Demux { file: f, playlists: qs, ..d }, 0) && grown(d.playlists, qs)
        }),
    decreases m,
{
    if m > 0 {
        lemma_finish_grows(d, start, pids, m - 1);
        let (f, qs, last, diff) = finished_over(start, d.playlists, pids, m - 1);
        let e = Demux { file: f, playlists: qs, ..d };
        assert forall|pid: u16, pts: i64, interval: i64| true implies {
            let (g, rs) = #[trigger] updated(f, qs, pid, pts, interval);
            has_room(Demux { file: g, playlists: rs, ..d }, 0) && grown(d.playlists, rs)
        } by {
            lemma_updated_grows(e, pid, pts, interval, 0);
            let (g, rs) = updated(f, qs, pid, pts, interval);
            lemma_grown_goes_on(d.playlists, qs, rs);
        }
    }
}

proof fn lemma_nothing_pending(n: int, bytes: bool)
    ensures
        in_windows(Map::empty(), bytes, n) == 0,
    decreases n,
{
    if n > 0 {
        lemma_nothing_pending(n - 1, bytes);
    }
}

/// The scan of a stream file takes nothing back that was tallied before, of any clip of any
/// playlist. This is for tallies that the bytes of the file, counted on top of them, leave
/// within their range.
pub proof fn lemma_a_scan_takes_nothing_back<A: AccessUnits>(
    units: A,
    file: FileView,
    ps: Seq<PlaylistView>,
    chunks: Seq<Seq<u8>>,
    failure: Option<Failure>,
    full: bool,
)
    requires
        joined(chunks).len() <= u64::MAX,
        forall|i: int, k: int|
            0 <= i < ps.len() && 0 <= k < ps[i].clips.len() ==> {
                &&& (#[trigger] ps[i].clips[k]).payload_bytes + joined(chunks).len() <= u64::MAX
                &&& ps[i].clips[k].packet_count + joined(chunks).len() <= u64::MAX
            },
    ensures
        grown(ps, outcome_of(units, file, ps, chunks, failure, full).playlists),
{
    if ps.len() > 0 {
        let s = blank_scan(file, ps);
        let bytes = joined(chunks);
        let analyse = analysis(units, full);
        lemma_nothing_pending(0x1_0000, true);
        lemma_nothing_pending(0x1_0000, false);
        assert(pending(blank_file(file.name, file.interleaved_file), true) == 0);
        assert(pending(blank_file(file.name, file.interleaved_file), false) == 0);
        lemma_scanned_grows(s, bytes, full, analyse, 0);
        let a = scanned(s, bytes, full, analyse);
        let pids = sorted_keys(a.demux.file.streams.dom());
        lemma_finish_grows(a.demux, a.demux.file, pids, pids.len() as int);
        let (f, qs, _, _) = finished_over(
            a.demux.file,
            a.demux.playlists,
            pids,
            pids.len() as int,
        );
        lemma_grown_goes_on(ps, a.demux.playlists, qs);
    }
}

} // verus!
