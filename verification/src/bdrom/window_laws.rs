//! Where the bytes of a closed window go, and what an analysed access unit leaves behind.

use vstd::prelude::*;

use super::demux_laws::lemma_window_counts_once_per_clip;
use super::m2ts::{
    all_initialized, analysed, flushed, flushed_file, marked, open_window, packet_counted, state_of,
    stays_open, unit_rate, updated, windows_of, AccessUnitScan, Demux, FileView,
};
use super::mpls::PlaylistView;
use super::pes::{StateView, WindowMark};
use super::rate_laws::{lemma_a_bit_rate_is_bits_over_seconds, lemma_what_a_window_adds_to_a_clip};
use crate::maps::{lemma_keys_from_members, sorted_keys};
use crate::stream::{TsStream, TsStreamType};
use crate::sums::{lemma_sum_nonneg, sum};

verus! {

/// Whether a timestamp of `pts_pid` closes the window of a PID: the window has a packet, and
/// the PID is no other video stream's.
pub open spec fn closes(file: FileView, pid: u16, pts_pid: u16) -> bool {
    &&& file.stream_states.contains_key(pid)
    &&& file.stream_states[pid].core.window_packets != 0
    &&& pid == pts_pid || !file.streams.contains_key(pid)
        || !file.streams[pid].common().video()
}

/// Whether a PID of a file has become what it is with its window closed at `pts`, after
/// `interval`: its stream has the window's bytes and packets on top, and a video stream the
/// interval and the window in its list; the next window is empty; and nothing else of it
/// changes.
pub open spec fn is_closed(
    before: FileView,
    after: FileView,
    pid: u16,
    pts: i64,
    interval: i64,
) -> bool {
    let s = before.stream_states[pid];
    let t = after.stream_states[pid];
    &&& after.stream_states.contains_key(pid)
    &&& t.core.window_bytes == 0 && t.core.window_packets == 0
    &&& t.core.total_bytes == s.core.total_bytes && t.core.total_packets == s.core.total_packets
    &&& t.payload == s.payload && t.stream_tag == s.stream_tag
    &&& after.streams.contains_key(pid) == before.streams.contains_key(pid)
    &&& before.streams.contains_key(pid) ==> {
        let a = before.streams[pid].common();
        let b = after.streams[pid].common();
        &&& after.streams[pid] == before.streams[pid].with_common(b)
        &&& a.payload_bytes + s.core.window_bytes <= u64::MAX ==> b.payload_bytes
            == a.payload_bytes + s.core.window_bytes
        &&& a.packet_count + s.core.window_packets <= u64::MAX ==> b.packet_count
            == a.packet_count + s.core.window_packets
        &&& a.video() && i128::MIN <= a.packet_ticks + interval <= i128::MAX ==> b.packet_ticks
            == a.packet_ticks + interval
        &&& !a.video() ==> b.packet_ticks == a.packet_ticks
        &&& b.pid == a.pid && b.stream_type == a.stream_type && b.language_code
            == a.language_code && b.is_vbr == a.is_vbr && b.is_initialized == a.is_initialized
            && b.bit_rate == a.bit_rate
        &&& a.video() ==> {
            let list = windows_of(after.stream_diagnostics, pid);
            let was = windows_of(before.stream_diagnostics, pid);
            &&& list.len() == was.len() + 1
            &&& list.drop_last() == was
            &&& list.last().bytes == s.core.window_bytes
            &&& list.last().packets == s.core.window_packets
            &&& list.last().marker == pts
            &&& list.last().interval == interval
            &&& list.last().tag == s.stream_tag
        }
        &&& !a.video() ==> windows_of(after.stream_diagnostics, pid) == windows_of(
            before.stream_diagnostics,
            pid,
        )
    }
}

/// Whether a PID is as it was.
pub open spec fn is_untouched(before: FileView, after: FileView, pid: u16) -> bool {
    &&& after.stream_states.contains_key(pid) == before.stream_states.contains_key(pid)
    &&& before.stream_states.contains_key(pid) ==> after.stream_states[pid]
        == before.stream_states[pid]
    &&& after.streams.contains_key(pid) == before.streams.contains_key(pid)
    &&& before.streams.contains_key(pid) ==> after.streams[pid] == before.streams[pid]
    &&& windows_of(after.stream_diagnostics, pid) == windows_of(before.stream_diagnostics, pid)
}

#[verifier::rlimit(50)]
proof fn lemma_one_closed(file: FileView, pid: u16, other: u16, pts: i64, interval: i64)
    requires
        file.stream_states.contains_key(pid),
    ensures
        is_closed(file, flushed_file(file, pid, pts, interval), pid, pts, interval),
        other != pid ==> is_untouched(file, flushed_file(file, pid, pts, interval), other),
        flushed_file(file, pid, pts, interval).name == file.name,
{
    let after = flushed_file(file, pid, pts, interval);
    if file.streams.contains_key(pid) && file.streams[pid].common().video() {
        assert(windows_of(after.stream_diagnostics, pid).drop_last() =~= windows_of(
            file.stream_diagnostics,
            pid,
        ));
    }
}

#[verifier::rlimit(50)]
proof fn lemma_flushed(
    file: FileView,
    playlists: Seq<PlaylistView>,
    pids: Seq<u16>,
    n: int,
    pts_pid: u16,
    pts: i64,
    interval: i64,
    pid: u16,
)
    requires
        0 <= n <= pids.len(),
        forall|i: int, j: int| 0 <= i < j < pids.len() ==> pids[i] < pids[j],
        forall|i: int|
            0 <= i < pids.len() ==> file.stream_states.contains_key(#[trigger] pids[i]),
    ensures
        ({
            let after = flushed(file, playlists, pids, n, pts_pid, pts, interval).0;
            let seen = exists|k: int| 0 <= k < n && #[trigger] pids[k] == pid;
            &&& after.name == file.name
            &&& seen && closes(file, pid, pts_pid) ==> is_closed(file, after, pid, pts, interval)
            &&& !(seen && closes(file, pid, pts_pid)) ==> is_untouched(file, after, pid)
        }),
    decreases n,
{
    if n > 0 {
        lemma_flushed(file, playlists, pids, n - 1, pts_pid, pts, interval, pid);
        let (f, p) = flushed(file, playlists, pids, n - 1, pts_pid, pts, interval);
        let own = pids[n - 1];
        lemma_flushed(file, playlists, pids, n - 1, pts_pid, pts, interval, own);
        assert(!(exists|k: int| 0 <= k < n - 1 && #[trigger] pids[k] == own)) by {
            if exists|k: int| 0 <= k < n - 1 && #[trigger] pids[k] == own {
                let k = choose|k: int| 0 <= k < n - 1 && #[trigger] pids[k] == own;
                assert(pids[k] < pids[n - 1]);
            }
        }
        assert(is_untouched(file, f, own));
        assert(stays_open(f, own, pts_pid) == !closes(file, own, pts_pid));
        if exists|k: int| 0 <= k < n && #[trigger] pids[k] == pid {
            let k = choose|k: int| 0 <= k < n && #[trigger] pids[k] == pid;
            if k < n - 1 {
                assert(0 <= k < n - 1 && pids[k] == pid);
            }
        }
        if exists|k: int| 0 <= k < n - 1 && #[trigger] pids[k] == pid {
            let k = choose|k: int| 0 <= k < n - 1 && #[trigger] pids[k] == pid;
            assert(0 <= k < n && pids[k] == pid);
        }
        assert(0 <= n - 1 < n && pids[n - 1] == own);
        if closes(file, own, pts_pid) {
            lemma_one_closed(f, own, pid, pts, interval);
        }
    }
}

/// A timestamp closes the window of every PID that has had a packet since the last one, but
/// for those of other video streams, and touches no other PID. What was in a window is in the
/// stream's tallies afterwards.
pub proof fn lemma_which_windows_a_timestamp_closes(
    file: FileView,
    playlists: Seq<PlaylistView>,
    pts_pid: u16,
    pts: i64,
    interval: i64,
    pid: u16,
)
    ensures
        ({
            let after = updated(file, playlists, pts_pid, pts, interval).0;
            &&& after.name == file.name
            &&& closes(file, pid, pts_pid) ==> is_closed(file, after, pid, pts, interval)
            &&& !closes(file, pid, pts_pid) ==> is_untouched(file, after, pid)
        }),
{
    reveal(updated);
    let pids = sorted_keys(file.stream_states.dom());
    lemma_keys_from_members(file.stream_states.dom(), 0);
    assert forall|i: int| 0 <= i < pids.len() implies file.stream_states.contains_key(
        #[trigger] pids[i],
    ) by {
        assert(file.stream_states.dom().contains(pids[i]));
    }
    lemma_flushed(
        file,
        playlists,
        pids,
        pids.len() as int,
        pts_pid,
        pts,
        interval,
        pid,
    );
    if closes(file, pid, pts_pid) {
        assert(file.stream_states.dom().contains(pid));
        assert(pids.contains(pid));
        let k = choose|k: int| 0 <= k < pids.len() && pids[k] == pid;
        assert(0 <= k < pids.len() && pids[k] == pid);
    }
}

/// The bytes, or the packets, of the windows of the first `n` PIDs that a timestamp closes.
pub open spec fn window_sums(
    file: FileView,
    pids: Seq<u16>,
    n: int,
    pts_pid: u16,
    packets: bool,
) -> Seq<int> {
    Seq::new(
        n as nat,
        |k: int|
            if !closes(file, pids[k], pts_pid) {
                0
            } else if packets {
                file.stream_states[pids[k]].core.window_packets as int
            } else {
                file.stream_states[pids[k]].core.window_bytes as int
            },
    )
}

#[verifier::rlimit(50)]
proof fn lemma_clip_after_windows(
    file: FileView,
    playlists: Seq<PlaylistView>,
    pids: Seq<u16>,
    n: int,
    pts_pid: u16,
    pts: i64,
    interval: i64,
    p: int,
    c: int,
)
    requires
        0 <= n <= pids.len(),
        forall|i: int, j: int| 0 <= i < j < pids.len() ==> pids[i] < pids[j],
        forall|i: int|
            0 <= i < pids.len() ==> file.stream_states.contains_key(#[trigger] pids[i]),
        0 <= p < playlists.len(),
        0 <= c < playlists[p].clips.len(),
        playlists[p].clips[c].payload_bytes + sum(
            window_sums(file, pids, n, pts_pid, false),
        ) <= u64::MAX,
        playlists[p].clips[c].packet_count + sum(
            window_sums(file, pids, n, pts_pid, true),
        ) <= u64::MAX,
    ensures
        ({
            let after = flushed(file, playlists, pids, n, pts_pid, pts, interval).1;
            let a = playlists[p].clips[c];
            let b = after[p].clips[c];
            let inside = a.name == file.name && (pts == 0 || (a.time_in <= pts && pts
                <= a.time_out));
            &&& after.len() == playlists.len()
            &&& after[p].clips.len() == playlists[p].clips.len()
            &&& b.name == a.name && b.time_in == a.time_in && b.time_out == a.time_out
                && b.angle_index == a.angle_index
            &&& inside ==> b.payload_bytes == a.payload_bytes + sum(
                window_sums(file, pids, n, pts_pid, false),
            )
            &&& inside ==> b.packet_count == a.packet_count + sum(
                window_sums(file, pids, n, pts_pid, true),
            )
            &&& !inside ==> b == a
            &&& sum(window_sums(file, pids, n, pts_pid, false)) >= 0
            &&& sum(window_sums(file, pids, n, pts_pid, true)) >= 0
        }),
    decreases n,
{
    let bytes = window_sums(file, pids, n, pts_pid, false);
    let packets = window_sums(file, pids, n, pts_pid, true);
    lemma_sum_nonneg(bytes);
    lemma_sum_nonneg(packets);
    if n > 0 {
        let less = window_sums(file, pids, n - 1, pts_pid, false);
        let fewer = window_sums(file, pids, n - 1, pts_pid, true);
        assert(bytes.drop_last() =~= less);
        assert(packets.drop_last() =~= fewer);
        lemma_sum_nonneg(less);
        lemma_sum_nonneg(fewer);
        lemma_clip_after_windows(
            file,
            playlists,
            pids,
            n - 1,
            pts_pid,
            pts,
            interval,
            p,
            c,
        );
        let own = pids[n - 1];
        lemma_flushed(file, playlists, pids, n - 1, pts_pid, pts, interval, own);
        assert(!(exists|k: int| 0 <= k < n - 1 && #[trigger] pids[k] == own)) by {
            if exists|k: int| 0 <= k < n - 1 && #[trigger] pids[k] == own {
                let k = choose|k: int| 0 <= k < n - 1 && #[trigger] pids[k] == own;
                assert(pids[k] < pids[n - 1]);
            }
        }
        let (f, q) = flushed(file, playlists, pids, n - 1, pts_pid, pts, interval);
        assert(is_untouched(file, f, own));
        assert(stays_open(f, own, pts_pid) == !closes(file, own, pts_pid));
        if closes(file, own, pts_pid) {
            lemma_what_a_window_adds_to_a_clip(q[p], open_window(f, own, pts, interval), c);
        }
    }
}

/// A clip that plays a stream file has the bytes and the packets of all the windows that a
/// timestamp within it closes, whichever PIDs they are of; a clip that plays another file, or
/// another part of it, has nothing of them.
pub proof fn lemma_a_clip_has_the_bytes_of_its_windows(
    file: FileView,
    playlists: Seq<PlaylistView>,
    pts_pid: u16,
    pts: i64,
    interval: i64,
    p: int,
    c: int,
)
    requires
        0 <= p < playlists.len(),
        0 <= c < playlists[p].clips.len(),
        ({
            let pids = sorted_keys(file.stream_states.dom());
            let n = pids.len() as int;
            &&& playlists[p].clips[c].payload_bytes + sum(
                window_sums(file, pids, n, pts_pid, false),
            ) <= u64::MAX
            &&& playlists[p].clips[c].packet_count + sum(
                window_sums(file, pids, n, pts_pid, true),
            ) <= u64::MAX
        }),
    ensures
        ({
            let pids = sorted_keys(file.stream_states.dom());
            let n = pids.len() as int;
            let after = updated(file, playlists, pts_pid, pts, interval).1;
            let a = playlists[p].clips[c];
            let b = after[p].clips[c];
            let inside = a.name == file.name && (pts == 0 || (a.time_in <= pts && pts
                <= a.time_out));
            &&& after.len() == playlists.len()
            &&& after[p].clips.len() == playlists[p].clips.len()
            &&& inside ==> b.payload_bytes == a.payload_bytes + sum(
                window_sums(file, pids, n, pts_pid, false),
            )
            &&& inside ==> b.packet_count == a.packet_count + sum(
                window_sums(file, pids, n, pts_pid, true),
            )
            &&& !inside ==> b == a
        }),
{
    reveal(updated);
    let pids = sorted_keys(file.stream_states.dom());
    let n = pids.len() as int;
    lemma_keys_from_members(file.stream_states.dom(), 0);
    assert forall|i: int| 0 <= i < pids.len() implies file.stream_states.contains_key(
        #[trigger] pids[i],
    ) by {
        assert(file.stream_states.dom().contains(pids[i]));
    }
    lemma_clip_after_windows(file, playlists, pids, n, pts_pid, pts, interval, p, c);
}

/// One packet more of a PID is one more in all and one more in its window, and nothing else.
pub proof fn lemma_a_packet_counts_once(s: StateView)
    requires
        s.core.total_packets < u64::MAX,
        s.core.window_packets < u64::MAX,
    ensures
        ({
            let t = packet_counted(s);
            &&& t.core.total_packets == s.core.total_packets + 1
            &&& t.core.window_packets == s.core.window_packets + 1
            &&& t.core.total_bytes == s.core.total_bytes
            &&& t.core.window_bytes == s.core.window_bytes
            &&& t.core.transfer_state == s.core.transfer_state
            &&& t.core.packet_length == s.core.packet_length
            &&& t.payload == s.payload
            &&& t.stream_tag == s.stream_tag
        }),
{
}

/// A file is as long as its decode timestamps reach: from the lowest that was seen to the
/// highest.
pub proof fn lemma_a_file_is_as_long_as_its_timestamps_reach(d: Demux, pid: u16, mark: WindowMark)
    requires
        -0x2_0000_0000 <= mark.dts <= 0x2_0000_0000,
        d.parser.pts_first >= -0x2_0000_0000,
        -0x2_0000_0000 <= d.parser.pts_last <= 0x2_0000_0000,
    ensures
        ({
            let e = marked(d, pid, mark);
            let (first, last) = (e.parser.pts_first, e.parser.pts_last);
            &&& first <= mark.dts && first <= d.parser.pts_first
            &&& first == mark.dts || first == d.parser.pts_first
            &&& last >= mark.dts && last >= d.parser.pts_last
            &&& last == mark.dts || last == d.parser.pts_last
            &&& e.file.length == last - first
        }),
{
}

/// The access unit of a PID that has been analysed leaves the stream that the analysis made of
/// it, and its frame tag, and makes room for the next one; the largest unit is remembered. The
/// other PIDs are as they were, and without an analysis so is the stream.
#[verifier::rlimit(50)]
pub proof fn lemma_what_an_analysis_leaves(
    file: FileView,
    pid: u16,
    scan: Option<AccessUnitScan>,
    other: u16,
)
    ensures
        ({
            let after = analysed(file, pid, scan);
            let s = state_of(file.stream_states, pid);
            let t = state_of(after.stream_states, pid);
            &&& after.streams.dom() == file.streams.dom()
            &&& after.stream_order == file.stream_order
            &&& after.stream_diagnostics == file.stream_diagnostics
            &&& after.name == file.name
            &&& file.streams.contains_key(pid) && scan is Some ==> after.streams[pid]
                == scan->Some_0.stream && t.stream_tag == scan->Some_0.tag
            &&& file.streams.contains_key(pid) && scan is None ==> after.streams[pid]
                == file.streams[pid] && t.stream_tag is None
            &&& file.streams.contains_key(pid) ==> t.core.stream_initialized
                == after.streams[pid].common().is_initialized
            &&& t.payload.len() == 0
            &&& t.core.transfer_length == 0
            &&& t.core.total_bytes == s.core.total_bytes
            &&& t.core.window_bytes == s.core.window_bytes
            &&& t.core.window_packets == s.core.window_packets
            &&& t.core.peak_transfer_length >= s.core.peak_transfer_length
            &&& s.core.transfer_length <= i64::MAX ==> t.core.peak_transfer_length
                >= s.core.transfer_length && (t.core.peak_transfer_length
                == s.core.peak_transfer_length || t.core.peak_transfer_length
                == s.core.transfer_length)
            &&& t.core.peak_transfer_rate >= s.core.peak_transfer_rate
            &&& other != pid ==> is_untouched(file, after, other)
        }),
{
    assert(analysed(file, pid, scan).streams.dom() =~= file.streams.dom());
}

/// The rate of an audio stream's unit is its bits over the time to the unit before it, and
/// there is none before there is such a time, nor for any other stream.
pub proof fn lemma_the_rate_of_a_unit(file: FileView, pid: u16)
    ensures
        ({
            let core = state_of(file.stream_states, pid).core;
            let rate = unit_rate(file, pid);
            let audio = file.streams.contains_key(pid) && file.streams[pid].common().audio();
            &&& !audio || core.pts_transfer <= 0 ==> rate == 0
            &&& audio && core.pts_transfer > 0 && rate < i64::MAX ==> 2 * (core.transfer_length * 8
                * 90_000 - rate * core.pts_transfer) <= core.pts_transfer && 2 * (rate
                * core.pts_transfer - core.transfer_length * 8 * 90_000) <= core.pts_transfer
        }),
{
    let core = state_of(file.stream_states, pid).core;
    if core.pts_transfer > 0 {
        lemma_a_bit_rate_is_bits_over_seconds(core.transfer_length, core.pts_transfer as i128);
    }
}

/// A quick scan goes on as long as a stream lacks its detail, or a dependent view its base
/// view, and not longer.
pub proof fn lemma_when_a_quick_scan_has_all(streams: Map<u16, TsStream>, pid: u16)
    requires
        streams.contains_key(pid),
    ensures
        !streams[pid].common().is_initialized ==> !all_initialized(streams),
        streams[pid].common().stream_type is MvcVideo && (forall|q: u16| #[trigger]
            streams.contains_key(q) ==> !(streams[q].common().stream_type is AvcVideo))
            ==> !all_initialized(streams),
        (forall|q: u16| #[trigger]
            streams.contains_key(q) ==> streams[q].common().is_initialized && !(
            streams[q].common().stream_type is MvcVideo)) ==> all_initialized(streams),
        (forall|q: u16| #[trigger]
            streams.contains_key(q) ==> streams[q].common().is_initialized)
            && streams[pid].common().stream_type is AvcVideo ==> all_initialized(streams),
{
    if streams[pid].common().stream_type is MvcVideo {
        assert(super::m2ts::has_type(streams, TsStreamType::MvcVideo));
    }
    if streams[pid].common().stream_type is AvcVideo {
        assert(super::m2ts::has_type(streams, TsStreamType::AvcVideo));
    }
}

} // verus!
