//! What holds of every scan, whatever the bytes are.

use vstd::prelude::*;

use super::credit::{counts_for, credited, credited_clip, credited_playlist, Credit};
use super::m2ts::{
    analysed, blank_framing, flushed, flushed_file, marked, new_stream, payload_taken, pmt_walk,
    registered, run, stays_open, step, updated, AccessUnitScan, Demux, FileView, Framing,
};
use super::mpls::{plays, PlaylistView};
use super::psi::{byte_or_zero, high_nibble, pid_at};
use crate::maps::sorted_keys;
use crate::stream::type_of_code;

verus! {

/// Whether a framing can come about.
pub open spec fn framed(f: Framing) -> bool {
    if f.synced {
        &&& 1 <= f.packet_left <= 187
        &&& f.time_code_left == 4
        &&& f.header_left <= 3
        &&& f.header_left > 0 ==> f.packet_left == 184 + f.header_left && !f.adaption_next
            && f.adaption_left == 0
        &&& f.adaption_next ==> f.packet_left == 184 && f.adaption_left == 0
        &&& f.adaption_left <= f.packet_left
    } else {
        &&& f.header_left == 0
        &&& !f.adaption_next
        &&& f.adaption_left == 0
        &&& f.time_code_left <= 4
    }
}

/// A scan starts well framed.
pub proof fn lemma_blank_is_framed()
    ensures
        framed(blank_framing()),
{
}

/// Every byte leaves the framing sound. Inside a transport packet it uses up one of the
/// packet's bytes, whatever it is, and with the last one the sync is lost: a packet takes
/// 188 bytes and never reaches into the next one.
pub proof fn lemma_step_is_framed(d: Demux, b: u8, full: bool)
    requires
        framed(d.parser.framing),
        d.parser.pending is None,
    ensures
        framed(step(d, b, full).parser.framing),
        d.parser.framing.synced ==> {
            &&& step(d, b, full).parser.framing.packet_left == d.parser.framing.packet_left - 1
            &&& step(d, b, full).parser.framing.synced == (d.parser.framing.packet_left > 1)
        },
{
    reveal(step);
    let f = d.parser.framing;
    if !f.synced {
    } else if f.header_left > 0 {
    } else if f.adaption_next {
    } else if f.adaption_left > 0 {
    } else if f.pid != 0 && f.pid != f.pmt_pid && f.stream_present && !f.scrambled {
        let (e, mark) = payload_taken(d, b);
        match mark {
            Some(m) => {
                assert(marked(e, f.pid, m).parser.framing == e.parser.framing);
            },
            None => {},
        }
    }
}

/// What a scan leaves alone: the file's name, its size, and its interleaved source.
pub open spec fn same_file(a: FileView, b: FileView) -> bool {
    a.name == b.name && a.size == b.size && a.interleaved_file == b.interleaved_file
}

/// Whether the registration order lists each registered PID exactly once.
pub open spec fn order_lists_streams(f: FileView) -> bool {
    &&& f.stream_order.no_duplicates()
    &&& forall|pid: u16| #[trigger]
        f.streams.contains_key(pid) <==> f.stream_order.contains(pid)
}

/// Whether a file has the streams of another, in the order of the other.
pub open spec fn same_streams(a: FileView, b: FileView) -> bool {
    a.stream_order == b.stream_order && a.streams.dom() == b.streams.dom()
}

proof fn lemma_flushed(
    file: FileView,
    playlists: Seq<PlaylistView>,
    pids: Seq<u16>,
    n: int,
    pts_pid: u16,
    pts: i64,
    interval: i64,
)
    ensures
        same_file(file, flushed(file, playlists, pids, n, pts_pid, pts, interval).0),
        same_streams(file, flushed(file, playlists, pids, n, pts_pid, pts, interval).0),
        flushed(file, playlists, pids, n, pts_pid, pts, interval).1.len() == playlists.len(),
    decreases n,
{
    if n > 0 {
        lemma_flushed(file, playlists, pids, n - 1, pts_pid, pts, interval);
        let (f, p) = flushed(file, playlists, pids, n - 1, pts_pid, pts, interval);
        let pid = pids[n - 1];
        if !stays_open(f, pid, pts_pid) {
            assert(flushed_file(f, pid, pts, interval).streams.dom() =~= f.streams.dom());
        }
    }
}

/// Closing windows registers nothing.
pub proof fn lemma_updated_registers_nothing(
    file: FileView,
    playlists: Seq<PlaylistView>,
    pts_pid: u16,
    pts: i64,
    interval: i64,
)
    ensures
        same_file(file, updated(file, playlists, pts_pid, pts, interval).0),
        same_streams(file, updated(file, playlists, pts_pid, pts, interval).0),
        updated(file, playlists, pts_pid, pts, interval).1.len() == playlists.len(),
{
    reveal(updated);
    let pids = sorted_keys(file.stream_states.dom());
    lemma_flushed(file, playlists, pids, pids.len() as int, pts_pid, pts, interval);
}

proof fn lemma_registered(file: FileView, pid: u16, code: u8, full: bool)
    requires
        order_lists_streams(file),
        !file.streams.contains_key(pid),
    ensures
        order_lists_streams(registered(file, pid, code, full)),
        same_file(file, registered(file, pid, code, full)),
{
    let f = registered(file, pid, code, full);
    if new_stream(type_of_code(code)) is Some {
        assert(!file.stream_order.contains(pid));
        assert(f.stream_order == file.stream_order.push(pid));
        assert(f.stream_order[file.stream_order.len() as int] == pid);
        assert forall|q: u16| #[trigger] f.streams.contains_key(q) implies f.stream_order.contains(
            q,
        ) by {
            if q != pid {
                assert(file.streams.contains_key(q));
                let i = choose|i: int| 0 <= i < file.stream_order.len() && file.stream_order[i] == q;
                assert(f.stream_order[i] == q);
            }
        }
        assert forall|q: u16| f.stream_order.contains(q) implies #[trigger] f.streams.contains_key(
            q,
        ) by {
            if q != pid {
                let i = choose|i: int| 0 <= i < f.stream_order.len() && f.stream_order[i] == q;
                assert(file.stream_order[i] == q);
                assert(file.streams.contains_key(q));
            }
        }
    } else {
        assert(f.streams.dom() =~= file.streams.dom());
        assert forall|q: u16| #[trigger]
            f.streams.contains_key(q) <==> f.stream_order.contains(q) by {
            assert(f.streams.contains_key(q) <==> file.streams.contains_key(q));
        }
    }
}

proof fn lemma_pmt_walk(file: FileView, table: Seq<u8>, bound: int, k: int, full: bool)
    requires
        order_lists_streams(file),
    ensures
        order_lists_streams(pmt_walk(file, table, bound, k, full)),
        same_file(file, pmt_walk(file, table, bound, k, full)),
    decreases
            if bound > k {
                bound - k
            } else {
                0
            },
{
    if k < bound && k >= 0 {
        let pid = pid_at(table, k + 1);
        let next = k + 5 + high_nibble(byte_or_zero(table, k + 3)) + byte_or_zero(table, k + 4);
        if file.streams.contains_key(pid) {
            lemma_pmt_walk(file, table, bound, next, full);
        } else {
            let f = registered(file, pid, byte_or_zero(table, k), full);
            lemma_registered(file, pid, byte_or_zero(table, k), full);
            if f.streams.contains_key(pid) {
                lemma_pmt_walk(f, table, bound, next, full);
            }
        }
    }
}

/// No byte makes the registration order miss a stream or list one twice, and none
/// changes which file it is.
pub proof fn lemma_step_keeps_order(d: Demux, b: u8, full: bool)
    requires
        order_lists_streams(d.file),
    ensures
        order_lists_streams(step(d, b, full).file),
        same_file(d.file, step(d, b, full).file),
{
    reveal(step);
    let f = d.parser.framing;
    let e = step(d, b, full);
    if d.parser.pending is None && f.synced && f.header_left == 0 && !f.adaption_next
        && f.adaption_left == 0 && f.pid != 0 {
        if f.pid == f.pmt_pid {
            assert forall|k: int, table: Seq<u8>, bound: int| order_lists_streams(
                #[trigger] pmt_walk(d.file, table, bound, k, full),
            ) && same_file(d.file, pmt_walk(d.file, table, bound, k, full)) by {
                lemma_pmt_walk(d.file, table, bound, k, full);
            }
        } else if f.stream_present && !f.scrambled {
            let (g, mark) = payload_taken(d, b);
            match mark {
                Some(m) => {
                    lemma_updated_registers_nothing(
                        g.file,
                        g.playlists,
                        f.pid,
                        m.marker,
                        m.interval,
                    );
                    assert forall|q: u16| #[trigger]
                        e.file.streams.contains_key(q) <==> e.file.stream_order.contains(q) by {
                        assert(e.file.streams.dom().contains(q) <==> d.file.streams.dom().contains(
                            q,
                        ));
                        assert(d.file.streams.contains_key(q) <==> d.file.stream_order.contains(q));
                    }
                },
                None => {},
            }
        }
    }
}

/// No scan makes the registration order miss a stream or list one twice, and none
/// changes which file it is.
pub proof fn lemma_run_keeps_order(d: Demux, bytes: Seq<u8>, full: bool)
    requires
        order_lists_streams(d.file),
    ensures
        order_lists_streams(run(d, bytes, full).file),
        same_file(d.file, run(d, bytes, full).file),
    decreases bytes.len(),
{
    if bytes.len() > 0 {
        lemma_run_keeps_order(d, bytes.drop_last(), full);
        lemma_step_keeps_order(run(d, bytes.drop_last(), full), bytes.last(), full);
    }
}

/// The analysis of an access unit registers nothing.
pub proof fn lemma_analysis_keeps_order(file: FileView, pid: u16, scan: Option<AccessUnitScan>)
    requires
        order_lists_streams(file),
    ensures
        order_lists_streams(analysed(file, pid, scan)),
        same_file(file, analysed(file, pid, scan)),
{
    let f = analysed(file, pid, scan);
    assert(f.streams.dom() =~= file.streams.dom());
    assert forall|q: u16| #[trigger]
        f.streams.contains_key(q) <==> f.stream_order.contains(q) by {
        assert(f.streams.dom().contains(q) <==> file.streams.dom().contains(q));
        assert(file.streams.contains_key(q) <==> file.stream_order.contains(q));
    }
}

/// While a complete access unit waits to be analysed, no byte is taken.
pub proof fn lemma_pending_unit_waits(d: Demux, bytes: Seq<u8>, full: bool)
    requires
        d.parser.pending is Some,
    ensures
        run(d, bytes, full) == d,
    decreases bytes.len(),
{
    if bytes.len() > 0 {
        lemma_pending_unit_waits(d, bytes.drop_last(), full);
        reveal(step);
    }
}

proof fn lemma_credited(p: PlaylistView, n: int, w: Credit)
    requires
        0 <= n <= p.clips.len(),
    ensures
        credited(p, n, w).clips.len() == p.clips.len(),
        credited(p, n, w).angle_streams.len() == p.angle_streams.len(),
        forall|i: int|
            0 <= i < n ==> #[trigger] credited(p, n, w).clips[i] == (if counts_for(p.clips[i], w) {
                credited_clip(p.clips[i], w)
            } else {
                p.clips[i]
            }),
        forall|i: int|
            n <= i < p.clips.len() ==> #[trigger] credited(p, n, w).clips[i] == p.clips[i],
    decreases n,
{
    if n > 0 {
        lemma_credited(p, n - 1, w);
        assert(credited(p, n - 1, w).clips[n - 1] == p.clips[n - 1]);
    }
}

/// A window counts once for each clip that it falls into, and not at all for any other;
/// the clips' number and order stay.
pub proof fn lemma_window_counts_once_per_clip(p: PlaylistView, w: Credit)
    ensures
        credited_playlist(p, w).clips.len() == p.clips.len(),
        forall|i: int|
            0 <= i < p.clips.len() ==> #[trigger] credited_playlist(p, w).clips[i] == (
            if counts_for(p.clips[i], w) {
                credited_clip(p.clips[i], w)
            } else {
                p.clips[i]
            }),
{
    lemma_credited(p, p.clips.len() as int, w);
}

/// The clips' tallies only grow, as long as a counter does not pass the end of its
/// range.
pub proof fn lemma_tallies_only_grow(p: PlaylistView, w: Credit)
    requires
        forall|i: int|
            #![trigger p.clips[i]]
            0 <= i < p.clips.len() ==> p.clips[i].payload_bytes + w.bytes <= u64::MAX
                && p.clips[i].packet_count + w.packets <= u64::MAX,
    ensures
        forall|i: int|
            #![trigger credited_playlist(p, w).clips[i]]
            0 <= i < p.clips.len() ==> {
                &&& credited_playlist(p, w).clips[i].payload_bytes >= p.clips[i].payload_bytes
                &&& credited_playlist(p, w).clips[i].packet_count >= p.clips[i].packet_count
                &&& credited_playlist(p, w).clips[i].packet_ticks >= p.clips[i].packet_ticks
            },
{
    lemma_window_counts_once_per_clip(p, w);
    assert forall|i: int|
        #![trigger credited_playlist(p, w).clips[i]]
        0 <= i < p.clips.len() implies {
        &&& credited_playlist(p, w).clips[i].payload_bytes >= p.clips[i].payload_bytes
        &&& credited_playlist(p, w).clips[i].packet_count >= p.clips[i].packet_count
        &&& credited_playlist(p, w).clips[i].packet_ticks >= p.clips[i].packet_ticks
    } by {
        let c = p.clips[i];
        assert(c.payload_bytes + w.bytes <= u64::MAX);
    }
}

/// A playlist that plays none of a stream file is not touched by the file's windows.
pub proof fn lemma_other_playlists_stay(p: PlaylistView, w: Credit)
    requires
        !plays(p, w.file),
    ensures
        credited_playlist(p, w) == p,
{
    lemma_other_playlists(p, p.clips.len() as int, w);
}

proof fn lemma_other_playlists(p: PlaylistView, n: int, w: Credit)
    requires
        !plays(p, w.file),
        0 <= n <= p.clips.len(),
    ensures
        credited(p, n, w) == p,
    decreases n,
{
    if n > 0 {
        lemma_other_playlists(p, n - 1, w);
        assert(p.clips[n - 1].name != w.file);
    }
}

} // verus!
