//! What the parts of a report rest on: which windows measure the chapters, which labels a disc
//! has, and what a playlist takes over from the passes.

use vstd::prelude::*;

use super::chapters::{hundred_ns, position_of, ChapterClipView};
use super::clpi::{ClipFileView, ClipView};
use super::disc::{feature_labels, BdRom};
use super::m2ts::{FileView, TsStreamDiagnostics};
use super::merge::merged_map;
use super::mpls::PlaylistView;
use super::passes::{prepared, refreshed, source_size, takes_part};
use super::resolve::{cleared, metas_of, resolved, selected, stem};
use super::summarise::{first_video, first_video_from, walk_clips};
use crate::maps::{lemma_keys_from_members, sorted_keys};
use crate::names::find;
use crate::stream::TsStream;

verus! {

// ---- chapters ----

/// A frame lies as far behind its clip's start on the playlist's timeline as it lies behind
/// the clip's in-time in the stream file.
pub proof fn lemma_where_a_frame_lies(clip: ChapterClipView, diag: TsStreamDiagnostics)
    ensures
        position_of(clip, diag) - clip.relative_time_in == diag.marker - clip.time_in,
{
}

proof fn lemma_first_video_from(streams: Map<u16, TsStream>, pids: Seq<u16>, i: int)
    requires
        0 <= i <= pids.len(),
    ensures
        match first_video_from(streams, pids, i) {
            Some(pid) => exists|k: int|
                i <= k < pids.len() && #[trigger] pids[k] == pid && streams[pid].common().video()
                    && forall|j: int|
                    i <= j < k ==> !streams[#[trigger] pids[j]].common().video(),
            None => forall|j: int|
                i <= j < pids.len() ==> !streams[#[trigger] pids[j]].common().video(),
        },
    decreases pids.len() - i,
{
    if i < pids.len() && !streams[pids[i]].common().video() {
        lemma_first_video_from(streams, pids, i + 1);
        if let Some(pid) = first_video_from(streams, pids, i + 1) {
            let k = choose|k: int|
                i + 1 <= k < pids.len() && #[trigger] pids[k] == pid
                    && streams[pid].common().video() && forall|j: int|
                    i + 1 <= j < k ==> !streams[#[trigger] pids[j]].common().video();
            assert(i <= k < pids.len() && pids[k] == pid);
        }
    } else if i < pids.len() {
        assert(pids[i] == pids[i]);
    }
}

/// The chapters are measured by the video stream of the lowest PID, and by none where there is
/// no video stream.
pub proof fn lemma_the_lowest_video_measures_the_chapters(streams: Map<u16, TsStream>)
    ensures
        match first_video(streams) {
            Some(pid) => streams.contains_key(pid) && streams[pid].common().video() && forall|
                q: u16,
            | #[trigger]
                streams.contains_key(q) && streams[q].common().video() ==> pid <= q,
            None => forall|q: u16| #[trigger]
                streams.contains_key(q) ==> !streams[q].common().video(),
        },
{
    let pids = sorted_keys(streams.dom());
    lemma_keys_from_members(streams.dom(), 0);
    lemma_first_video_from(streams, pids, 0);
    match first_video(streams) {
        Some(pid) => {
            let k = choose|k: int|
                0 <= k < pids.len() && #[trigger] pids[k] == pid && streams[pid].common().video()
                    && forall|j: int|
                    0 <= j < k ==> !streams[#[trigger] pids[j]].common().video();
            assert(streams.dom().contains(pids[k]));
            assert forall|q: u16| #[trigger]
                streams.contains_key(q) && streams[q].common().video() implies pid <= q by {
                assert(streams.dom().contains(q));
                assert(pids.contains(q));
                let j = choose|j: int| 0 <= j < pids.len() && pids[j] == q;
                if j < k {
                    assert(!streams[pids[j]].common().video());
                } else if j > k {
                    assert(pids[k] < pids[j]);
                }
            }
        },
        None => {
            assert forall|q: u16| #[trigger] streams.contains_key(q) implies !streams[q].common(
            ).video() by {
                assert(streams.dom().contains(q));
                assert(pids.contains(q));
                let j = choose|j: int| 0 <= j < pids.len() && pids[j] == q;
                assert(!streams[pids[j]].common().video());
            }
        },
    }
}

/// Each clip goes into the chapters with its own angle and times, and with the windows that
/// its measured stream file has of the PID; without a measurement it has none.
pub proof fn lemma_what_a_clip_brings_to_the_chapters(
    clips: Seq<ClipView>,
    pid: Option<u16>,
    measured: Seq<(Seq<char>, FileView)>,
    i: int,
)
    requires
        0 <= i < clips.len(),
    ensures
        ({
            let c = walk_clips(clips, pid, measured);
            let f = find(measured, clips[i].name);
            &&& c.len() == clips.len()
            &&& c[i].angle_index == clips[i].angle_index
            &&& c[i].time_in == clips[i].time_in
            &&& c[i].relative_time_in == clips[i].relative_time_in
            &&& c[i].diagnostics is Some <==> pid is Some && f is Some
                && f->Some_0.stream_diagnostics.contains_key(pid->Some_0)
            &&& c[i].diagnostics is Some ==> c[i].diagnostics->Some_0
                == f->Some_0.stream_diagnostics[pid->Some_0]
        }),
{
}

/// A time in units of 100 ns is never further from zero than the ticks, of which nine are a
/// thousand units, and less than one unit nearer.
pub proof fn lemma_times_are_cut_toward_zero(ticks: int)
    requires
        -0x1_0000_0000_0000 <= ticks <= 0x1_0000_0000_0000,
    ensures
        ticks >= 0 ==> 0 <= ticks * 1000 - hundred_ns(ticks) * 9 < 9,
        ticks < 0 ==> 0 <= hundred_ns(ticks) * 9 - ticks * 1000 < 9,
        hundred_ns(-ticks) == -hundred_ns(ticks),
{
}

// ---- labels ----

/// Whether one of the labels is this.
pub open spec fn is_labelled(labels: Seq<Seq<char>>, label: Seq<char>) -> bool {
    labels.contains(label)
}

/// A disc has a label for each of its extra features and for nothing else: as many as it has
/// features, each of them there where its feature is.
pub proof fn lemma_a_disc_has_a_label_per_feature(d: BdRom)
    ensures
        ({
            let labels = feature_labels(d);
            let one = |flag: bool|
                if flag {
                    1int
                } else {
                    0int
                };
            &&& labels.len() == one(d.is_uhd) + one(d.is_bd_java) + one(d.is_50hz) + one(d.is_3d)
                + one(d.is_dbox) + one(d.is_psp)
            &&& d.is_uhd ==> is_labelled(labels, "Ultra HD"@)
            &&& d.is_bd_java ==> is_labelled(labels, "BD-Java"@)
            &&& d.is_50hz ==> is_labelled(labels, "50Hz Content"@)
            &&& d.is_3d ==> is_labelled(labels, "Blu-ray 3D"@)
            &&& d.is_dbox ==> is_labelled(labels, "D-BOX Motion Code"@)
            &&& d.is_psp ==> is_labelled(labels, "PSP Digital Copy"@)
        }),
{
    let one = |flag: bool|
        if flag {
            1int
        } else {
            0int
        };
    let labels = feature_labels(d);
    let a = one(d.is_uhd);
    let b = a + one(d.is_bd_java);
    let c = b + one(d.is_50hz);
    let e = c + one(d.is_3d);
    let f = e + one(d.is_dbox);
    assert(d.is_uhd ==> labels[0] == "Ultra HD"@);
    assert(d.is_bd_java ==> labels[a] == "BD-Java"@);
    assert(d.is_50hz ==> labels[b] == "50Hz Content"@);
    assert(d.is_3d ==> labels[c] == "Blu-ray 3D"@);
    assert(d.is_dbox ==> labels[e] == "D-BOX Motion Code"@);
    assert(d.is_psp ==> labels[f] == "PSP Digital Copy"@);
}

// ---- passes ----

/// A stream file takes part in a scan without a selection, and in one with a selection where
/// the selection has its name.
pub proof fn lemma_which_files_take_part(name: Seq<char>, names: Seq<Seq<char>>, i: int)
    ensures
        takes_part(name, None),
        0 <= i < names.len() && names[i] == name ==> takes_part(name, Some(names)),
        (forall|k: int| 0 <= k < names.len() ==> #[trigger] names[k] != name) ==> !takes_part(
            name,
            Some(names),
        ),
{
}

/// A stream file counts with its interleaved source where the disc has that, and with its own
/// size where it does not.
pub proof fn lemma_what_a_file_counts_with(
    name: Seq<char>,
    size: u64,
    interleaved_files: Seq<(Seq<char>, u64)>,
)
    ensures
        match find(interleaved_files, stem(name) + ".SSIF"@) {
            Some(larger) => source_size(name, size, interleaved_files) == larger,
            None => source_size(name, size, interleaved_files) == size,
        },
{
}

/// After the quick pass a playlist presents what its reference clip has it present, with
/// nothing measured of its clips. A playlist that plays a clip without clip information only
/// has its measurements taken back.
pub proof fn lemma_what_a_playlist_takes_from_the_quick_pass(
    p: PlaylistView,
    clip_files: Seq<(Seq<char>, ClipFileView)>,
    stream_files: Seq<(Seq<char>, u64)>,
    quick: Seq<(Seq<char>, FileView)>,
)
    ensures
        ({
            let metas = metas_of(p.clips, clip_files, stream_files, quick, p.clips.len() as int);
            let r = prepared(p, clip_files, stream_files, quick);
            &&& metas is Ok ==> r == cleared(resolved(p, metas->Ok_0))
            &&& metas is Err ==> r == cleared(p)
        }),
{
}

/// After the full pass a playlist has the captions that the scan of its reference clip found,
/// and is otherwise as it was.
pub proof fn lemma_what_a_playlist_takes_from_the_full_pass(
    p: PlaylistView,
    clip_files: Seq<(Seq<char>, ClipFileView)>,
    stream_files: Seq<(Seq<char>, u64)>,
    full: Seq<(Seq<char>, FileView)>,
)
    ensures
        ({
            let metas = metas_of(p.clips, clip_files, stream_files, full, p.clips.len() as int);
            let r = refreshed(p, clip_files, stream_files, full);
            &&& r == (PlaylistView { streams: r.streams, ..p })
            &&& r.streams.dom() == p.streams.dom()
            &&& metas is Err ==> r == p
            &&& metas is Ok && selected(metas->Ok_0) is Some
                && selected(metas->Ok_0)->Some_0.scanned is Some ==> r.streams == merged_map(
                p.streams,
                selected(metas->Ok_0)->Some_0.scanned->Some_0.streams,
                true,
            )
        }),
{
    assert(refreshed(p, clip_files, stream_files, full).streams.dom() =~= p.streams.dom());
}

} // verus!
