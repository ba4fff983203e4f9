//! What holds of every summary, and of the snapshots taken on the way to it.

use vstd::prelude::*;

use super::chapters::lemma_one_row_per_chapter;
use super::disc::{capped, clip_size, size_over};
use super::m2ts::FileView;
use super::measured::{clip_bytes, measured_playlist, measured_stream};
use super::mpls::PlaylistView;
use super::present::{
    angle_stream, detailed, has_ssif_row, row_of, row_streams, rows_over, sorted_rows, stream_at,
    stream_rows, StreamRow, StreamText,
};
use super::resolve::{MetaView, MVC_PID};
use super::summarise::{clip_rows, first_video, presented_count, summary_by, walk_clips};
use crate::maps::{lemma_keys_from_members, sorted_keys};
use crate::stream::TsStream;

verus! {

proof fn lemma_sizes_agree<T: StreamText>(
    text: T,
    p: PlaylistView,
    stream_files: Seq<(Seq<char>, u64)>,
    interleaved_files: Seq<(Seq<char>, u64)>,
    measured: Seq<(Seq<char>, FileView)>,
    n: int,
)
    requires
        0 <= n <= p.clips.len(),
    ensures
        ({
            let rows = clip_rows(text, p, stream_files, interleaved_files, measured);
            &&& size_over(rows, n, false) >= 0
            &&& clip_bytes(p.clips, n) == capped(size_over(rows, n, false))
        }),
    decreases n,
{
    if n > 0 {
        lemma_sizes_agree(text, p, stream_files, interleaved_files, measured, n - 1);
    }
}

/// A snapshot holds the numbers that the summary reports, earlier: for the same tallies its
/// bytes are those of the summary's clips, one by one and in all.
pub proof fn lemma_snapshot_bytes_are_the_summarys<T: StreamText>(
    text: T,
    p: PlaylistView,
    stream_files: Seq<(Seq<char>, u64)>,
    interleaved_files: Seq<(Seq<char>, u64)>,
    measured: Seq<(Seq<char>, FileView)>,
)
    ensures
        ({
            let rows = clip_rows(text, p, stream_files, interleaved_files, measured);
            let entry = measured_playlist(p);
            &&& entry.clips.len() == rows.len()
            &&& entry.measured_bytes == capped(size_over(rows, rows.len() as int, false))
            &&& forall|i: int|
                #![trigger entry.clips[i]]
                0 <= i < rows.len() ==> {
                    &&& entry.clips[i].measured_bytes == clip_size(rows[i])
                    &&& entry.clips[i].name == rows[i].name
                    &&& entry.clips[i].angle_index == rows[i].angle_index
                }
        }),
{
    lemma_sizes_agree(
        text,
        p,
        stream_files,
        interleaved_files,
        measured,
        p.clips.len() as int,
    );
}

/// The rates of a presented stream in a snapshot are those of its row, for the main
/// presentation and for every extra angle.
pub proof fn lemma_snapshot_rates_are_the_rows<T: StreamText>(
    text: T,
    s: TsStream,
    p: PlaylistView,
    pid: u16,
    angle: int,
    is_hidden: bool,
    ssif_only: bool,
)
    requires
        p.streams.contains_key(pid),
        0 <= angle < p.angle_streams.len(),
        p.angle_streams[angle].contains_key(pid),
        angle < usize::MAX,
    ensures
        ({
            let entry = measured_stream(p.streams, pid, 0);
            let main = row_of(text, s, 0, is_hidden, ssif_only, stream_at(p.streams, pid));
            &&& entry.bitrate == main.bitrate
            &&& entry.active_bitrate == main.active_bitrate
        }),
        ({
            let entry = measured_stream(p.angle_streams[angle], pid, (angle + 1) as usize);
            let row = row_of(
                text,
                s,
                (angle + 1) as usize,
                is_hidden,
                ssif_only,
                angle_stream(p, angle, pid),
            );
            &&& entry.angle_index == row.angle_index
            &&& entry.bitrate == row.bitrate
            &&& entry.active_bitrate == row.active_bitrate
        }),
{
}

/// A summary has one chapter row per chapter mark and one clip row per clip, and counts no
/// more streams than it presents.
pub proof fn lemma_summary_counts<T: StreamText>(
    text: T,
    p: PlaylistView,
    metas: Seq<MetaView>,
    stream_files: Seq<(Seq<char>, u64)>,
    interleaved_files: Seq<(Seq<char>, u64)>,
    measured: Seq<(Seq<char>, FileView)>,
)
    ensures
        ({
            let s = summary_by(text, p, metas, stream_files, interleaved_files, measured).0;
            &&& s.chapters.len() == s.chapter_count
            &&& s.clips.len() == p.clips.len()
            &&& 0 <= s.stream_count <= s.streams.len()
        }),
{
    let s = summary_by(text, p, metas, stream_files, interleaved_files, measured).0;
    lemma_one_row_per_chapter(
        p.chapters,
        s.total_length,
        walk_clips(p.clips, first_video(p.streams), measured),
    );
    lemma_presented_count(s.streams, s.streams.len() as int);
}

proof fn lemma_presented_count(rows: Seq<StreamRow>, n: int)
    requires
        0 <= n,
    ensures
        0 <= presented_count(rows, n) <= n,
    decreases n,
{
    if n > 0 {
        lemma_presented_count(rows, n - 1);
    }
}

/// How many rows the first `n` of the streams `pids` have: one, and for a video stream one
/// more per extra angle.
pub open spec fn row_count(streams: Map<u16, TsStream>, pids: Seq<u16>, angle_count: nat, n: int) -> nat
    decreases n,
{
    if n <= 0 {
        0
    } else {
        row_count(streams, pids, angle_count, n - 1) + 1 + (if streams[pids[n
            - 1]].common().video() {
            angle_count
        } else {
            0
        })
    }
}

/// Every stream has one main row, and every video stream one more per extra angle.
pub proof fn lemma_row_count<T: StreamText>(
    text: T,
    streams: Map<u16, TsStream>,
    pids: Seq<u16>,
    ssif: bool,
    p: PlaylistView,
    angle_count: nat,
    n: int,
)
    requires
        0 <= n <= pids.len(),
    ensures
        rows_over(text, streams, pids, ssif, p, angle_count as int, n).len() == row_count(
            streams,
            pids,
            angle_count,
            n,
        ),
    decreases n,
{
    if n > 0 {
        lemma_row_count(text, streams, pids, ssif, p, angle_count, n - 1);
    }
}

/// Only a stream that the playlist does not declare is hidden, and the dependent view never
/// is.
pub proof fn lemma_hidden_is_undeclared<T: StreamText>(
    text: T,
    s: TsStream,
    pid: u16,
    ssif_only: bool,
    p: PlaylistView,
    angle_count: int,
)
    requires
        angle_count >= 0,
    ensures
        forall|i: int|
            #![trigger stream_rows(text, s, pid, ssif_only, p, angle_count)[i]]
            0 <= i < stream_rows(text, s, pid, ssif_only, p, angle_count).len() ==> stream_rows(
                text,
                s,
                pid,
                ssif_only,
                p,
                angle_count,
            )[i].is_hidden == (!ssif_only && !p.playlist_streams.contains_key(pid)),
{
}

/// Whether each stream stands under its own PID.
pub open spec fn under_own_pid(streams: Map<u16, TsStream>) -> bool {
    forall|pid: u16| #[trigger]
        streams.contains_key(pid) ==> streams[pid].common().pid.raw == pid
}

proof fn lemma_rows_in_order<T: StreamText>(
    text: T,
    streams: Map<u16, TsStream>,
    pids: Seq<u16>,
    ssif: bool,
    p: PlaylistView,
    angle_count: int,
    n: int,
)
    requires
        0 <= n <= pids.len(),
        under_own_pid(streams),
        forall|k: int| 0 <= k < pids.len() ==> streams.contains_key(#[trigger] pids[k]),
        forall|a: int, b: int| 0 <= a < b < pids.len() ==> pids[a] < pids[b],
    ensures
        ({
            let rows = rows_over(text, streams, pids, ssif, p, angle_count, n);
            &&& forall|i: int|
                #![trigger rows[i]]
                0 <= i < rows.len() ==> n > 0 && rows[i].pid.raw <= pids[n - 1]
            &&& forall|i: int, j: int|
                #![trigger rows[i], rows[j]]
                0 <= i < j < rows.len() ==> rows[i].pid.raw <= rows[j].pid.raw
        }),
    decreases n,
{
    if n > 0 {
        lemma_rows_in_order(text, streams, pids, ssif, p, angle_count, n - 1);
        let pid = pids[n - 1];
        let before = rows_over(text, streams, pids, ssif, p, angle_count, n - 1);
        let own = stream_rows(text, streams[pid], pid, ssif && pid == MVC_PID, p, angle_count);
        let rows = rows_over(text, streams, pids, ssif, p, angle_count, n);
        assert(rows == before + own);
        assert(streams.contains_key(pids[n - 1]));
        assert forall|i: int| 0 <= i < own.len() implies (#[trigger] own[i]).pid.raw == pid by {
            if i > 0 {
                assert(streams[pid].common().video());
            }
        }
        assert forall|i: int|
            #![trigger rows[i]]
            0 <= i < rows.len() implies rows[i].pid.raw <= pids[n - 1] by {
            if i < before.len() {
                assert(rows[i] == before[i]);
            } else {
                assert(rows[i] == own[i - before.len()]);
            }
        }
        assert forall|i: int, j: int|
            #![trigger rows[i], rows[j]]
            0 <= i < j < rows.len() implies rows[i].pid.raw <= rows[j].pid.raw by {
            if j < before.len() {
                assert(rows[i] == before[i] && rows[j] == before[j]);
            } else {
                assert(rows[j] == own[j - before.len()]);
            }
        }
    }
}

/// The rows of a playlist are in PID order, as long as each stream stands under its own PID.
pub proof fn lemma_rows_are_in_pid_order<T: StreamText>(
    text: T,
    clip_streams: Map<u16, TsStream>,
    scanned: Option<Map<u16, TsStream>>,
    p: PlaylistView,
    angle_count: int,
)
    requires
        under_own_pid(row_streams(detailed(clip_streams, scanned, p), p)),
    ensures
        ({
            let rows = sorted_rows(text, clip_streams, scanned, p, angle_count);
            forall|i: int, j: int|
                #![trigger rows[i], rows[j]]
                0 <= i < j < rows.len() ==> rows[i].pid.raw <= rows[j].pid.raw
        }),
{
    let streams = detailed(clip_streams, scanned, p);
    let all = row_streams(streams, p);
    let pids = sorted_keys(all.dom());
    lemma_keys_from_members(all.dom(), 0);
    lemma_rows_in_order(
        text,
        all,
        pids,
        has_ssif_row(streams, p),
        p,
        angle_count,
        pids.len() as int,
    );
}

} // verus!
