//! Which clip stands for a playlist, and what the playlist presents on its account.

use vstd::prelude::*;

use super::clpi::{ClipFileView, ClipView};
use super::m2ts::FileView;
use super::merge::merged;
use super::mpls::PlaylistView;
use super::resolve::{
    cleared, has_50hz, metas_of, preferred, presented, reference_of, reset_copy, resolved, selected,
    stem, MetaView,
};
use crate::error::Failure;
use crate::names::find;
use crate::stream::{TsFrameRate, TsStream};

verus! {

// ---- the reference clip ----

proof fn lemma_reference_of_prefix(a: Seq<MetaView>, b: Seq<MetaView>, n: int)
    requires
        0 < a.len(),
        0 < b.len(),
        a[0] == b[0],
        forall|k: int| 0 <= k < n ==> a[k] == b[k],
    ensures
        reference_of(a, n) == reference_of(b, n),
    decreases n,
{
    if n > 0 {
        lemma_reference_of_prefix(a, b, n - 1);
        assert(a[n - 1] == b[n - 1]);
    }
}

/// A lone clip stands for its playlist. One clip more takes the place of the one that stands
/// for those before it where its stream file is there and the other's is not, where it has
/// more streams and is longer than the hundredth part of what is played before it, or where
/// it is longer and its stream file is there; in any other case it changes nothing.
pub proof fn lemma_which_clip_stands_for_a_playlist(clips: Seq<MetaView>, clip: MetaView)
    ensures
        clips.len() == 0 ==> selected(clips) is None,
        selected(seq![clip]) == Some(clip),
        clips.len() > 0 ==> {
            let r = selected(clips)->Some_0;
            let takes_over = (clip.stream_file_present && !r.stream_file_present) || (
            clip.clip_streams.dom().len() > r.clip_streams.dom().len()
                && clip.relative_length.above_hundredth()) || (clip.stream_file_present
                && clip.length > r.length);
            &&& takes_over ==> selected(clips.push(clip)) == Some(clip)
            &&& !takes_over ==> selected(clips.push(clip)) == Some(r)
        },
{
    let one = seq![clip];
    assert(reference_of(one, 0) == clip);
    assert(reference_of(one, 1) == preferred(clip, clip));
    if clips.len() > 0 {
        let n = clips.len() as int;
        lemma_reference_of_prefix(clips, clips.push(clip), n);
        assert(clips.push(clip)[n] == clip);
    }
}

/// Of clips that have the same number of streams and whose stream files are all there, the
/// longest stands for the playlist.
pub proof fn lemma_the_longest_clip_stands(clips: Seq<MetaView>, k: int)
    requires
        0 <= k < clips.len(),
        forall|i: int|
            0 <= i < clips.len() ==> (#[trigger] clips[i]).stream_file_present
                && clips[i].clip_streams.dom().len() == clips[0].clip_streams.dom().len(),
    ensures
        selected(clips) is Some,
        selected(clips)->Some_0.length >= clips[k].length,
{
    lemma_longest(clips, clips.len() as int);
}

proof fn lemma_longest(clips: Seq<MetaView>, n: int)
    requires
        0 < clips.len(),
        0 <= n <= clips.len(),
        forall|i: int|
            0 <= i < clips.len() ==> (#[trigger] clips[i]).stream_file_present
                && clips[i].clip_streams.dom().len() == clips[0].clip_streams.dom().len(),
    ensures
        reference_of(clips, n).stream_file_present,
        reference_of(clips, n).clip_streams.dom().len() == clips[0].clip_streams.dom().len(),
        forall|i: int|
            0 <= i < n ==> reference_of(clips, n).length >= (#[trigger] clips[i]).length,
    decreases n,
{
    if n > 0 {
        lemma_longest(clips, n - 1);
        let c = clips[n - 1];
        assert(c.stream_file_present);
    }
}

// ---- what is looked at ----

/// A stream file's name without its extension; any other name is its own.
pub proof fn lemma_stems(name: Seq<char>)
    ensures
        stem(name + ".M2TS"@) == name,
        stem(name + ".FMTS"@) == name,
        name.len() < 5 ==> stem(name) == name,
{
    reveal_strlit(".M2TS");
    reveal_strlit(".FMTS");
    let a = name + ".M2TS"@;
    let b = name + ".FMTS"@;
    assert(a.subrange(a.len() - 5, a.len() as int) =~= ".M2TS"@);
    assert(b.subrange(b.len() - 5, b.len() as int) =~= ".FMTS"@);
    assert(a.subrange(0, a.len() - 5) =~= name);
    assert(b.subrange(0, b.len() - 5) =~= name);
}

proof fn lemma_metas_of_prefix(
    a: Seq<ClipView>,
    b: Seq<ClipView>,
    clip_files: Seq<(Seq<char>, ClipFileView)>,
    stream_files: Seq<(Seq<char>, u64)>,
    scanned: Seq<(Seq<char>, FileView)>,
    n: int,
)
    requires
        forall|k: int| 0 <= k < n ==> a[k] == b[k],
    ensures
        metas_of(a, clip_files, stream_files, scanned, n) == metas_of(
            b,
            clip_files,
            stream_files,
            scanned,
            n,
        ),
    decreases n,
{
    if n > 0 {
        lemma_metas_of_prefix(a, b, clip_files, stream_files, scanned, n - 1);
        assert(a[n - 1] == b[n - 1]);
    }
}

/// Of every clip with clip information is looked at what that declares, what was scanned of
/// its stream file, whether the disc has that file, and its own length. A main clip without
/// clip information is a failure that names the missing file; a clip of an extra angle without
/// is passed over.
pub proof fn lemma_what_is_looked_at_of_a_clip(
    clips: Seq<ClipView>,
    clip: ClipView,
    clip_files: Seq<(Seq<char>, ClipFileView)>,
    stream_files: Seq<(Seq<char>, u64)>,
    scanned: Seq<(Seq<char>, FileView)>,
)
    ensures
        ({
            let more = clips.push(clip);
            let before = metas_of(
                clips,
                clip_files,
                stream_files,
                scanned,
                clips.len() as int,
            );
            let after = metas_of(more, clip_files, stream_files, scanned, more.len() as int);
            let file = find(clip_files, stem(clip.name) + ".CLPI"@);
            &&& before is Err ==> after == before
            &&& before is Ok && file is Some ==> {
                &&& after is Ok
                &&& after->Ok_0.len() == before->Ok_0.len() + 1
                &&& after->Ok_0.drop_last() == before->Ok_0
                &&& {
                    let m = after->Ok_0.last();
                    &&& m.clip_streams == file->Some_0.streams
                    &&& m.scanned == find(scanned, clip.name)
                    &&& m.stream_file_present == (find(stream_files, clip.name) is Some)
                    &&& m.length == clip.length
                    &&& m.relative_length == clip.relative_length
                    &&& m.has_50hz_video == has_50hz(file->Some_0.streams)
                }
            }
            &&& before is Ok && file is None && clip.angle_index == 0 ==> after == Err::<
                Seq<MetaView>,
                Failure,
            >(Failure::MissingClipFile(stem(clip.name) + ".CLPI"@))
            &&& before is Ok && file is None && clip.angle_index != 0 ==> after == before
        }),
{
    let more = clips.push(clip);
    lemma_metas_of_prefix(
        clips,
        more,
        clip_files,
        stream_files,
        scanned,
        clips.len() as int,
    );
    let before = metas_of(clips, clip_files, stream_files, scanned, clips.len() as int);
    let after = metas_of(more, clip_files, stream_files, scanned, more.len() as int);
    if before is Ok && after is Ok && after->Ok_0.len() > before->Ok_0.len() {
        assert(after->Ok_0.drop_last() =~= before->Ok_0);
    }
}

/// Streams are of 25 or 50 frames per second where one of them is a video stream of that
/// rate, and audio or graphics never make them so.
pub proof fn lemma_when_streams_are_of_50_hertz(streams: Map<u16, TsStream>, pid: u16)
    requires
        streams.contains_key(pid),
    ensures
        streams[pid] is Video && (streams[pid]->Video_0.frame_rate is Framerate25
            || streams[pid]->Video_0.frame_rate is Framerate50) ==> has_50hz(streams),
        has_50hz(streams) ==> exists|p: u16|
            #![trigger streams[p]]
            streams.contains_key(p) && streams[p] is Video && (streams[p]->Video_0.frame_rate
                == TsFrameRate::Framerate25 || streams[p]->Video_0.frame_rate
                == TsFrameRate::Framerate50),
{
    if has_50hz(streams) {
        let p = choose|p: u16| #[trigger]
            streams.contains_key(p) && super::resolve::is_50hz(streams[p]);
        assert(streams[p] is Video);
    }
}

// ---- what is presented ----

/// A copy of a declared stream keeps what was declared and has nothing measured.
pub proof fn lemma_a_cleared_copy(s: TsStream)
    ensures
        ({
            let a = s.common();
            let b = reset_copy(s).common();
            &&& reset_copy(s) == s.with_common(b)
            &&& b.pid == a.pid
            &&& b.stream_type == a.stream_type
            &&& b.language_code == a.language_code
            &&& b.is_vbr == a.is_vbr
            &&& b.is_initialized == a.is_initialized
            &&& b.bit_rate == a.bit_rate
            &&& b.descriptors == a.descriptors
            &&& b.payload_bytes == 0
            &&& b.packet_count == 0
            &&& b.packet_ticks == 0
            &&& b.active_bit_rate == 0
            &&& b.angle_index == 0
        }),
{
}

/// A playlist presents exactly the streams that its reference clip declares, and besides the
/// dependent view of a 3D pair, where that clip's stream file was scanned from an interleaved
/// source and has it. A stream that was scanned is the declared one with what the scan found;
/// any other is as it was declared.
pub proof fn lemma_what_a_playlist_presents(reference: MetaView, pid: u16)
    ensures
        ({
            let m = presented(reference);
            let declared = reference.clip_streams.contains_key(pid);
            let scanned = reference.scanned is Some
                && reference.scanned->Some_0.streams.contains_key(pid);
            let view = pid == 0x1012 && !declared && scanned
                && reference.scanned->Some_0.interleaved_file is Some;
            &&& m.contains_key(pid) == (declared || view)
            &&& declared && scanned ==> m[pid] == merged(
                reset_copy(reference.clip_streams[pid]),
                reference.scanned->Some_0.streams[pid],
            )
            &&& declared && !scanned ==> m[pid] == reset_copy(reference.clip_streams[pid])
            &&& view ==> m[pid] == merged(
                reset_copy(reference.scanned->Some_0.streams[pid]),
                reference.scanned->Some_0.streams[pid],
            )
        }),
{
}

/// Every extra angle of a playlist has the video streams that the playlist presents and no
/// others, each with the angle's number and nothing measured. There are as many as the
/// playlist counts. Nothing else of the playlist changes, and without a clip to stand for it
/// nothing does.
pub proof fn lemma_what_the_angles_present(p: PlaylistView, metas: Seq<MetaView>)
    ensures
        ({
            let r = resolved(p, metas);
            &&& r.clips == p.clips
            &&& r.chapters == p.chapters
            &&& r.name == p.name
            &&& r.angle_count == p.angle_count
            &&& r.playlist_streams == p.playlist_streams
            &&& metas.len() == 0 ==> r == p
            &&& metas.len() > 0 ==> {
                &&& r.streams == presented(selected(metas)->Some_0)
                &&& p.angle_count >= 0 ==> r.angle_streams.len() == p.angle_count
                &&& p.angle_count < 0 ==> r.angle_streams.len() == 0
                &&& forall|a: int, pid: u16|
                    #![trigger r.angle_streams[a].contains_key(pid)]
                    0 <= a < r.angle_streams.len() ==> {
                        &&& r.angle_streams[a].contains_key(pid) == (r.streams.contains_key(pid)
                            && r.streams[pid].common().video())
                        &&& r.angle_streams[a].contains_key(pid) ==> {
                            let s = r.angle_streams[a][pid];
                            let b = s.common();
                            let m = r.streams[pid].common();
                            &&& s == r.streams[pid].with_common(b)
                            &&& b.angle_index == (a + 1) as i32
                            &&& b.pid == m.pid
                            &&& b.stream_type == m.stream_type
                            &&& b.language_code == m.language_code
                            &&& b.is_vbr == m.is_vbr
                            &&& b.bit_rate == m.bit_rate
                            &&& b.payload_bytes == 0 && b.packet_count == 0 && b.packet_ticks == 0
                            &&& b.active_bit_rate == 0
                        }
                    }
            }
        }),
{
}

/// Clearing a playlist takes back what was measured of its clips, and nothing else.
pub proof fn lemma_clearing_takes_back_the_tallies(p: PlaylistView, i: int)
    requires
        0 <= i < p.clips.len(),
    ensures
        ({
            let c = cleared(p);
            &&& c == (PlaylistView { clips: c.clips, ..p })
            &&& c.clips.len() == p.clips.len()
            &&& c.clips[i] == (ClipView {
                payload_bytes: 0,
                packet_count: 0,
                packet_ticks: 0,
                ..p.clips[i]
            })
        }),
{
}

} // verus!
