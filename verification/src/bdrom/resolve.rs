//! Which of a playlist's clips stands for it, and the streams that the playlist presents
//! on that clip's account.

use std::collections::BTreeMap;

use vstd::prelude::*;
use vstd::std_specs::btree::*;
use vstd::string::*;

use super::clpi::{ClipFileView, ClipView, Ratio, TsStreamClipFile};
use super::m2ts::{FileView, TsStreamFile};
use super::merge::{merge_matching, merged, merged_map};
use super::mpls::{playlist_views, PlaylistView, TsPlaylistFile};
use crate::error::{BdError, Failure};
use crate::maps::{lemma_keys_from_members, pids};
use crate::names::{find, lemma_find_views, table_views, NameTable};
use crate::stream::{unmeasured, TsFrameRate, TsStream, TsStreamBase};
use crate::text::same;

verus! {

/// The PID of the dependent view of an interleaved 3D source, which the clip information
/// leaves out.
pub const MVC_PID: u16 = 0x1012;

/// Whether a text ends in another.
pub open spec fn ends_with(s: Seq<char>, tail: Seq<char>) -> bool {
    tail.len() <= s.len() && s.subrange(s.len() - tail.len(), s.len() as int) == tail
}

/// A stream file's name without its extension, which its clip-information file and its
/// interleaved file share with it.
pub open spec fn stem(name: Seq<char>) -> Seq<char> {
    if ends_with(name, ".M2TS"@) || ends_with(name, ".FMTS"@) {
        name.subrange(0, name.len() - 5)
    } else {
        name
    }
}

/// Whether `s` ends in `tail`.
fn has_suffix(s: &str, tail: &str) -> (r: bool)
    ensures
        r == ends_with(s@, tail@),
{
    let n: usize = s.unicode_len();
    let m: usize = tail.unicode_len();
    m <= n && same(s.substring_char(n - m, n), tail)
}

/// A stream file's name without its `.M2TS` or `.FMTS` extension.
pub fn clip_stem(name: &str) -> (r: &str)
    ensures
        r@ == stem(name@),
{
    proof {
        reveal_strlit(".M2TS");
        reveal_strlit(".FMTS");
    }
    if has_suffix(name, ".M2TS") || has_suffix(name, ".FMTS") {
        let n: usize = name.unicode_len();
        name.substring_char(0, n - 5)
    } else {
        name
    }
}

/// The name of a stream file's sibling: its stem with another extension.
pub fn sibling(name: &str, extension: &str) -> (r: String)
    ensures
        r@ == stem(name@) + extension@,
{
    clip_stem(name).to_owned().concat(extension)
}

/// Whether any of the streams is a video stream of 25 or 50 frames per second.
pub open spec fn has_50hz(streams: Map<u16, TsStream>) -> bool {
    exists|pid: u16| #[trigger] streams.contains_key(pid) && is_50hz(streams[pid])
}

/// Whether a stream is a video stream of 25 or 50 frames per second.
pub open spec fn is_50hz(s: TsStream) -> bool {
    match s {
        TsStream::Video(v) => v.frame_rate is Framerate25 || v.frame_rate is Framerate50,
        _ => false,
    }
}

/// Whether any of the streams is a video stream of 25 or 50 frames per second.
pub fn clip_has_50hz_video(streams: &BTreeMap<u16, TsStream>) -> (r: bool)
    ensures
        r == has_50hz(streams@),
{
    broadcast use group_btree_axioms;

    let keys = pids(streams);
    proof {
        lemma_keys_from_members(streams@.dom(), 0);
    }
    let mut i: usize = 0;
    while i < keys.len()
        invariant
            i <= keys@.len(),
            forall|a: int| 0 <= a < keys@.len() ==> streams@.dom().contains(#[trigger] keys@[a]),
            forall|x: u16| #[trigger] streams@.dom().contains(x) ==> keys@.contains(x),
            forall|a: int| 0 <= a < i ==> !is_50hz(streams@[#[trigger] keys@[a]]),
        decreases keys@.len() - i,
    {
        let pid: u16 = keys[i];
        assert(streams@.dom().contains(keys@[i as int]));
        if let Some(TsStream::Video(video)) = streams.get(&pid) {
            if matches!(video.frame_rate(), TsFrameRate::Framerate25 | TsFrameRate::Framerate50) {
                assert(streams@.contains_key(pid));
                return true;
            }
        }
        i = i + 1;
    }
    proof {
        assert forall|pid: u16| #[trigger] streams@.contains_key(pid) implies !is_50hz(
            streams@[pid],
        ) by {
            assert(streams@.dom().contains(pid));
            assert(keys@.contains(pid));
        }
    }
    false
}

/// What the choice of the reference clip looks at, and what is presented on its account.
pub struct ClipMeta<'a> {
    /// The streams of the clip's clip-information file.
    pub clip_streams: &'a BTreeMap<u16, TsStream>,
    /// The clip's scanned stream file, where it was scanned.
    pub scanned: Option<&'a TsStreamFile>,
    /// Whether the clip has a video stream of 25 or 50 frames per second.
    pub has_50hz_video: bool,
    /// The clip's length over that of what is played before it.
    pub relative_length: Ratio,
    /// The clip's length.
    pub length: i64,
    /// Whether the disc has the clip's stream file.
    pub stream_file_present: bool,
}

/// What a [`ClipMeta`] holds.
pub struct MetaView {
    pub clip_streams: Map<u16, TsStream>,
    pub scanned: Option<FileView>,
    pub has_50hz_video: bool,
    pub relative_length: Ratio,
    pub length: i64,
    pub stream_file_present: bool,
}

impl<'a> View for ClipMeta<'a> {
    type V = MetaView;

    open spec fn view(&self) -> MetaView {
        MetaView {
            clip_streams: self.clip_streams@,
            scanned: match self.scanned {
                Some(f) => Some(f@),
                None => None,
            },
            has_50hz_video: self.has_50hz_video,
            relative_length: self.relative_length,
            length: self.length,
            stream_file_present: self.stream_file_present,
        }
    }
}

/// The views of a list of clips.
pub open spec fn meta_views<'a>(metas: Seq<ClipMeta<'a>>) -> Seq<MetaView> {
    metas.map_values(|m: ClipMeta<'a>| m@)
}

/// Of a reference clip and the next clip, the one that stands for the playlist. A clip
/// whose stream file is there beats one whose is not. After that, a clip with more streams
/// that is not negligibly short wins, and so does a longer one whose stream file is there.
pub open spec fn preferred(reference: MetaView, clip: MetaView) -> MetaView {
    let first = if !reference.stream_file_present && clip.stream_file_present {
        clip
    } else {
        reference
    };
    if (clip.clip_streams.dom().len() > first.clip_streams.dom().len()
        && clip.relative_length.above_hundredth()) || (clip.length > first.length
        && clip.stream_file_present) {
        clip
    } else {
        first
    }
}

/// The reference among the first `n` clips.
pub open spec fn reference_of(clips: Seq<MetaView>, n: int) -> MetaView
    decreases n,
{
    if n <= 0 {
        clips[0]
    } else {
        preferred(reference_of(clips, n - 1), clips[n - 1])
    }
}

/// The clip that stands for the playlist; an empty playlist has none.
pub open spec fn selected(clips: Seq<MetaView>) -> Option<MetaView> {
    if clips.len() == 0 {
        None
    } else {
        Some(reference_of(clips, clips.len() as int))
    }
}

/// Picks the clip that stands for a playlist, and returns its index.
pub fn select_reference<'a>(clips: &Vec<ClipMeta<'a>>) -> (r: Option<usize>)
    ensures
        match r {
            Some(i) => i < clips@.len() && selected(meta_views(clips@)) == Some(clips@[i as int]@),
            None => selected(meta_views(clips@)) is None,
        },
{
    broadcast use group_btree_axioms;

    let ghost views = meta_views(clips@);
    let n: usize = clips.len();
    if n == 0 {
        return None;
    }
    let mut reference: usize = 0;
    let mut i: usize = 0;
    while i < n
        invariant
            i <= n,
            n == clips@.len(),
            reference < n,
            views == meta_views(clips@),
            clips@[reference as int]@ == reference_of(views, i as int),
        decreases n - i,
    {
        assert(views[i as int] == clips@[i as int]@);
        let clip = &clips[i];
        if !clips[reference].stream_file_present && clip.stream_file_present {
            reference = i;
        }
        let more_streams = clip.clip_streams.len() > clips[reference].clip_streams.len();
        if (more_streams && clip.relative_length.exceeds_hundredth()) || (clip.length
            > clips[reference].length && clip.stream_file_present) {
            reference = i;
        }
        i = i + 1;
    }
    Some(reference)
}

/// Why no clip stands for a playlist, or the clips that may: one per clip, but for the
/// extra-angle clips without clip information. A main clip without is a failure.
pub open spec fn metas_of(
    clips: Seq<ClipView>,
    clip_files: Seq<(Seq<char>, ClipFileView)>,
    stream_files: Seq<(Seq<char>, u64)>,
    scanned: Seq<(Seq<char>, FileView)>,
    n: int,
) -> Result<Seq<MetaView>, Failure>
    decreases n,
{
    if n <= 0 {
        Ok(Seq::empty())
    } else {
        match metas_of(clips, clip_files, stream_files, scanned, n - 1) {
            Err(f) => Err(f),
            Ok(before) => {
                let clip = clips[n - 1];
                let info = stem(clip.name) + ".CLPI"@;
                match find(clip_files, info) {
                    Some(file) => Ok(
                        before.push(
                            MetaView {
                                clip_streams: file.streams,
                                scanned: find(scanned, clip.name),
                                has_50hz_video: has_50hz(file.streams),
                                relative_length: clip.relative_length,
                                length: clip.length,
                                stream_file_present: find(stream_files, clip.name) is Some,
                            },
                        ),
                    ),
                    None => if clip.angle_index == 0 {
                        Err(Failure::MissingClipFile(info))
                    } else {
                        Ok(before)
                    },
                }
            },
        }
    }
}

proof fn lemma_metas_fail_early(
    clips: Seq<ClipView>,
    clip_files: Seq<(Seq<char>, ClipFileView)>,
    stream_files: Seq<(Seq<char>, u64)>,
    scanned: Seq<(Seq<char>, FileView)>,
    k: int,
    n: int,
)
    requires
        k <= n,
        metas_of(clips, clip_files, stream_files, scanned, k) is Err,
    ensures
        metas_of(clips, clip_files, stream_files, scanned, n) == metas_of(
            clips,
            clip_files,
            stream_files,
            scanned,
            k,
        ),
    decreases n - k,
{
    if k < n {
        lemma_metas_fail_early(clips, clip_files, stream_files, scanned, k, n - 1);
    }
}

/// Gathers the clips that may stand for a playlist.
///
/// Fails with [`BdError::MissingClipFile`] where a main clip has no clip information.
pub fn collect_clip_metas<'a>(
    playlist: &TsPlaylistFile,
    clip_files: &'a NameTable<TsStreamClipFile>,
    stream_files: &NameTable<u64>,
    scanned: &'a NameTable<TsStreamFile>,
) -> (r: Result<Vec<ClipMeta<'a>>, BdError>)
    ensures
        match metas_of(
            playlist@.clips,
            table_views(clip_files@),
            stream_files@,
            table_views(scanned@),
            playlist@.clips.len() as int,
        ) {
            Ok(views) => r is Ok && meta_views(r->Ok_0@) == views,
            Err(f) => r is Err && r->Err_0@ == f,
        },
{
    let ghost clips = playlist@.clips;
    let mut metas: Vec<ClipMeta<'a>> = Vec::new();
    let mut i: usize = 0;
    proof {
        assert(meta_views(metas@) =~= Seq::empty());
    }
    while i < playlist.stream_clips.len()
        invariant
            i <= playlist.stream_clips@.len(),
            clips == playlist@.clips,
            metas_of(clips, table_views(clip_files@), stream_files@, table_views(scanned@), i as int) == Ok::<
                Seq<MetaView>,
                Failure,
            >(meta_views(metas@)),
        decreases playlist.stream_clips@.len() - i,
    {
        let clip = &playlist.stream_clips[i];
        assert(clips[i as int] == clip@);
        let info = sibling(clip.name.as_str(), ".CLPI");
        proof {
            lemma_find_views(clip_files@, info@);
            lemma_find_views(scanned@, clip.name@);
        }
        match clip_files.get(info.as_str()) {
            Some(file) => {
                let meta = ClipMeta {
                    clip_streams: &file.streams,
                    scanned: scanned.get(clip.name.as_str()),
                    has_50hz_video: clip_has_50hz_video(&file.streams),
                    relative_length: clip.relative_length,
                    length: clip.length,
                    stream_file_present: stream_files.contains_key(clip.name.as_str()),
                };
                let ghost before = meta_views(metas@);
                let ghost added = meta@;
                metas.push(meta);
                proof {
                    assert(meta_views(metas@) =~= before.push(added));
                }
            },
            None => {
                if clip.angle_index == 0 {
                    proof {
                        lemma_metas_fail_early(
                            clips,
                            table_views(clip_files@),
                            stream_files@,
                            table_views(scanned@),
                            i + 1,
                            clips.len() as int,
                        );
                    }
                    return Err(BdError::MissingClipFile(info));
                }
            },
        }
        i = i + 1;
    }
    Ok(metas)
}

/// A stream with its measurements cleared.
pub open spec fn reset_copy(s: TsStream) -> TsStream {
    s.with_common(unmeasured(s.common()))
}

/// A stream's copy for the `angle`th extra camera angle.
pub open spec fn angle_copy(s: TsStream, angle: int) -> TsStream {
    let copy = reset_copy(s);
    copy.with_common(TsStreamBase { angle_index: angle as i32, ..copy.common() })
}

/// The streams that a reference clip has its playlist present: cleared copies of those it
/// declares, and of the dependent view where its stream file is read interleaved and has
/// one, merged with what the scan found.
pub open spec fn presented(reference: MetaView) -> Map<u16, TsStream> {
    let declared = reference.clip_streams.map_values(|s: TsStream| reset_copy(s));
    match reference.scanned {
        Some(file) => {
            let with_view = if file.interleaved_file is Some && !declared.contains_key(MVC_PID)
                && file.streams.contains_key(MVC_PID) {
                declared.insert(MVC_PID, reset_copy(file.streams[MVC_PID]))
            } else {
                declared
            };
            merged_map(with_view, file.streams, false)
        },
        None => declared,
    }
}

/// The video streams of the `angle`th extra camera angle.
pub open spec fn angle_map(streams: Map<u16, TsStream>, angle: int) -> Map<u16, TsStream> {
    Map::new(
        |pid: u16| streams.contains_key(pid) && streams[pid].common().video(),
        |pid: u16| angle_copy(streams[pid], angle),
    )
}

/// A count that may be negative, as a length.
pub open spec fn length_of(count: i32) -> nat {
    if count < 0 {
        0
    } else {
        count as nat
    }
}

/// A playlist with the streams that it presents; without a reference clip it stays as it
/// is.
pub open spec fn resolved(p: PlaylistView, metas: Seq<MetaView>) -> PlaylistView {
    match selected(metas) {
        Some(reference) => PlaylistView {
            streams: presented(reference),
            angle_streams: Seq::new(
                length_of(p.angle_count),
                |i: int| angle_map(presented(reference), i + 1),
            ),
            ..p
        },
        None => p,
    }
}

/// Cleared copies of streams.
fn reset_map(streams: &BTreeMap<u16, TsStream>) -> (r: BTreeMap<u16, TsStream>)
    ensures
        r@ == streams@.map_values(|s: TsStream| reset_copy(s)),
{
    broadcast use group_btree_axioms;

    let keys = pids(streams);
    proof {
        lemma_keys_from_members(streams@.dom(), 0);
    }
    let mut out: BTreeMap<u16, TsStream> = BTreeMap::new();
    let mut i: usize = 0;
    while i < keys.len()
        invariant
            i <= keys@.len(),
            forall|a: int| 0 <= a < keys@.len() ==> streams@.dom().contains(#[trigger] keys@[a]),
            forall|x: u16| #[trigger] streams@.dom().contains(x) ==> keys@.contains(x),
            forall|x: u16| #[trigger]
                out@.contains_key(x) <==> exists|k: int| 0 <= k < i && #[trigger] keys@[k] == x,
            forall|x: u16| #[trigger]
                out@.contains_key(x) ==> out@[x] == reset_copy(streams@[x]),
        decreases keys@.len() - i,
    {
        let pid: u16 = keys[i];
        assert(streams@.dom().contains(keys@[i as int]));
        let ghost before = out@;
        if let Some(stream) = streams.get(&pid) {
            out.insert(pid, stream.ts_clone());
        }
        proof {
            assert forall|x: u16| #[trigger] out@.contains_key(x) <==> exists|k: int|
                0 <= k < i + 1 && #[trigger] keys@[k] == x by {
                if out@.contains_key(x) {
                    if x == pid {
                        assert(keys@[i as int] == x);
                    } else {
                        assert(before.contains_key(x));
                        let k = choose|k: int| 0 <= k < i && #[trigger] keys@[k] == x;
                        assert(0 <= k < i + 1 && keys@[k] == x);
                    }
                }
                if exists|k: int| 0 <= k < i + 1 && #[trigger] keys@[k] == x {
                    let k = choose|k: int| 0 <= k < i + 1 && #[trigger] keys@[k] == x;
                    if k < i {
                        assert(before.contains_key(x));
                    }
                }
            }
        }
        i = i + 1;
    }
    proof {
        let want = streams@.map_values(|s: TsStream| reset_copy(s));
        assert forall|x: u16| want.contains_key(x) implies #[trigger] out@.contains_key(x) by {
            assert(streams@.dom().contains(x));
            assert(keys@.contains(x));
            let k = choose|k: int| 0 <= k < keys@.len() && keys@[k] == x;
            assert(0 <= k < i && keys@[k] == x);
        }
        assert forall|x: u16| out@.contains_key(x) implies #[trigger] want.contains_key(x) by {
            let k = choose|k: int| 0 <= k < i && #[trigger] keys@[k] == x;
            assert(streams@.dom().contains(keys@[k]));
        }
        assert(out@ =~= want);
    }
    out
}

/// The copies of video streams for the `angle`th extra camera angle.
fn copy_angle(streams: &BTreeMap<u16, TsStream>, angle: i32) -> (r: BTreeMap<u16, TsStream>)
    ensures
        r@ == angle_map(streams@, angle as int),
{
    broadcast use group_btree_axioms;

    let keys = pids(streams);
    proof {
        lemma_keys_from_members(streams@.dom(), 0);
    }
    let mut out: BTreeMap<u16, TsStream> = BTreeMap::new();
    let mut i: usize = 0;
    while i < keys.len()
        invariant
            i <= keys@.len(),
            forall|a: int| 0 <= a < keys@.len() ==> streams@.dom().contains(#[trigger] keys@[a]),
            forall|x: u16| #[trigger] streams@.dom().contains(x) ==> keys@.contains(x),
            forall|x: u16| #[trigger]
                out@.contains_key(x) <==> streams@[x].common().video() && exists|k: int|
                    0 <= k < i && #[trigger] keys@[k] == x,
            forall|x: u16| #[trigger]
                out@.contains_key(x) ==> out@[x] == angle_copy(streams@[x], angle as int),
        decreases keys@.len() - i,
    {
        let pid: u16 = keys[i];
        assert(streams@.dom().contains(keys@[i as int]));
        let ghost before = out@;
        if let Some(stream) = streams.get(&pid) {
            if stream.base().is_video_stream() {
                let mut copy = stream.ts_clone();
                let mut base = *copy.base();
                base.angle_index = angle;
                copy.set_base(base);
                out.insert(pid, copy);
            }
        }
        proof {
            assert forall|x: u16| #[trigger]
                out@.contains_key(x) <==> streams@[x].common().video() && exists|k: int|
                    0 <= k < i + 1 && #[trigger] keys@[k] == x by {
                if out@.contains_key(x) {
                    if x == pid {
                        assert(keys@[i as int] == x);
                        if before.contains_key(x) {
                            let k = choose|k: int| 0 <= k < i && #[trigger] keys@[k] == x;
                        }
                    } else {
                        assert(before.contains_key(x));
                        let k = choose|k: int| 0 <= k < i && #[trigger] keys@[k] == x;
                        assert(0 <= k < i + 1 && keys@[k] == x);
                    }
                }
                if streams@[x].common().video() && exists|k: int|
                    0 <= k < i + 1 && #[trigger] keys@[k] == x {
                    let k = choose|k: int| 0 <= k < i + 1 && #[trigger] keys@[k] == x;
                    if k < i {
                        assert(before.contains_key(x));
                    }
                }
            }
        }
        i = i + 1;
    }
    proof {
        let want = angle_map(streams@, angle as int);
        assert forall|x: u16| want.contains_key(x) implies #[trigger] out@.contains_key(x) by {
            assert(streams@.dom().contains(x));
            assert(keys@.contains(x));
            let k = choose|k: int| 0 <= k < keys@.len() && keys@[k] == x;
            assert(0 <= k < i && keys@[k] == x);
        }
        assert forall|x: u16| out@.contains_key(x) implies #[trigger] want.contains_key(x) by {
            let k = choose|k: int| 0 <= k < i && #[trigger] keys@[k] == x;
            assert(streams@.dom().contains(keys@[k]));
        }
        assert(out@ =~= want);
    }
    out
}

/// Has a playlist present the streams of its reference clip, with one copy of each video
/// stream per extra camera angle. Without a reference clip nothing changes.
pub fn resolve_playlist_streams<'a>(playlist: &mut TsPlaylistFile, metas: &Vec<ClipMeta<'a>>)
    ensures
        final(playlist)@ == resolved(old(playlist)@, meta_views(metas@)),
{
    broadcast use group_btree_axioms;

    let ghost was = playlist@;
    let at: usize = match select_reference(metas) {
        Some(at) => at,
        None => {
            return;
        },
    };
    let reference = &metas[at];
    let ghost view = reference@;
    let mut streams = reset_map(reference.clip_streams);
    if let Some(file) = reference.scanned {
        let mvc: u16 = MVC_PID;
        if file.interleaved_file.is_some() && !streams.contains_key(&mvc) {
            if let Some(stream) = file.streams.get(&mvc) {
                streams.insert(mvc, stream.ts_clone());
            }
        }
        merge_matching(&mut streams, &file.streams, false);
    }
    assert(streams@ == presented(view));
    let count: i32 = if playlist.angle_count < 0 {
        0
    } else {
        playlist.angle_count
    };
    let mut angles: Vec<BTreeMap<u16, TsStream>> = Vec::new();
    let mut i: i32 = 0;
    while i < count
        invariant
            0 <= i <= count,
            angles@.len() == i,
            forall|k: int| 0 <= k < i ==> (#[trigger] angles@[k])@ == angle_map(streams@, k + 1),
        decreases count - i,
    {
        angles.push(copy_angle(&streams, i + 1));
        i = i + 1;
    }
    playlist.streams = streams;
    playlist.angle_streams = angles;
    proof {
        assert(playlist@.angle_streams =~= Seq::new(
            length_of(was.angle_count),
            |i: int| angle_map(presented(view), i + 1),
        ));
    }
}

/// Merges the graphics detail that only a full scan finds into the presented streams.
pub fn remerge_graphics_detail(playlist: &mut TsPlaylistFile, scanned: &BTreeMap<u16, TsStream>)
    ensures
        final(playlist)@ == (PlaylistView {
            streams: merged_map(old(playlist)@.streams, scanned@, true),
            ..old(playlist)@
        }),
{
    merge_matching(&mut playlist.streams, scanned, true);
}

/// A clip with nothing measured.
pub open spec fn cleared_clip(c: ClipView) -> ClipView {
    ClipView { payload_bytes: 0, packet_count: 0, packet_ticks: 0, ..c }
}

/// A playlist with nothing measured of its clips.
pub open spec fn cleared(p: PlaylistView) -> PlaylistView {
    PlaylistView { clips: p.clips.map_values(|c: ClipView| cleared_clip(c)), ..p }
}

/// Clears what was measured of a playlist's clips.
fn clear_clips(playlist: &mut TsPlaylistFile)
    ensures
        final(playlist)@ == cleared(old(playlist)@),
{
    let ghost was = playlist@;
    let n: usize = playlist.stream_clips.len();
    let mut i: usize = 0;
    while i < n
        invariant
            i <= n,
            n == playlist.stream_clips@.len(),
            n == was.clips.len(),
            playlist@ == (PlaylistView { clips: playlist@.clips, ..was }),
            forall|k: int| 0 <= k < i ==> #[trigger] playlist@.clips[k] == cleared_clip(was.clips[k]),
            forall|k: int| i <= k < n ==> #[trigger] playlist@.clips[k] == was.clips[k],
        decreases n - i,
    {
        let ghost now = playlist@.clips;
        assert(now[i as int] == was.clips[i as int]);
        playlist.stream_clips[i].payload_bytes = 0;
        playlist.stream_clips[i].packet_count = 0;
        playlist.stream_clips[i].packet_ticks = 0;
        proof {
            assert(playlist@.clips =~= now.update(i as int, cleared_clip(was.clips[i as int])));
        }
        i = i + 1;
    }
    proof {
        assert(playlist@.clips =~= cleared(was).clips);
    }
}

/// Clears what the quick pass has measured of the clips, before the full pass measures
/// them.
pub fn clear_measurements(playlists: &mut Vec<TsPlaylistFile>)
    ensures
        playlist_views(final(playlists)@) == playlist_views(old(playlists)@).map_values(
            |p: PlaylistView| cleared(p),
        ),
{
    let ghost was = playlist_views(playlists@);
    let n: usize = playlists.len();
    let mut i: usize = 0;
    while i < n
        invariant
            i <= n,
            n == playlists@.len(),
            n == was.len(),
            forall|k: int| 0 <= k < i ==> #[trigger] playlist_views(playlists@)[k] == cleared(was[k]),
            forall|k: int| i <= k < n ==> #[trigger] playlist_views(playlists@)[k] == was[k],
        decreases n - i,
    {
        let ghost now = playlist_views(playlists@);
        assert(now[i as int] == was[i as int]);
        clear_clips(&mut playlists[i]);
        proof {
            assert(playlist_views(playlists@) =~= now.update(i as int, cleared(was[i as int])));
        }
        i = i + 1;
    }
    proof {
        assert(playlist_views(playlists@) =~= was.map_values(|p: PlaylistView| cleared(p)));
    }
}

/// The reference clip is one of the clips.
pub proof fn lemma_reference_is_a_clip(clips: Seq<MetaView>, n: int)
    requires
        0 <= n <= clips.len(),
        clips.len() > 0,
    ensures
        clips.contains(reference_of(clips, n)),
    decreases n,
{
    if n > 0 {
        lemma_reference_is_a_clip(clips, n - 1);
        assert(clips.contains(clips[n - 1]));
    } else {
        assert(clips.contains(clips[0]));
    }
}

/// Where any clip's stream file is on the disc, that of the reference clip is, unless the
/// reference won by its streams.
pub proof fn lemma_reference_has_a_file(clips: Seq<MetaView>, n: int, k: int)
    requires
        0 <= k < n <= clips.len(),
        clips[k].stream_file_present,
        forall|i: int|
            #![trigger clips[i]]
            0 <= i < clips.len() ==> !clips[i].relative_length.above_hundredth(),
    ensures
        reference_of(clips, n).stream_file_present,
    decreases n,
{
    if k < n - 1 {
        lemma_reference_has_a_file(clips, n - 1, k);
    }
    assert(!clips[n - 1].relative_length.above_hundredth());
}

/// Whether nothing has been measured of a stream.
pub open spec fn is_unmeasured(b: TsStreamBase) -> bool {
    &&& b.payload_bytes == 0
    &&& b.packet_count == 0
    &&& b.packet_ticks == 0
    &&& b.active_bit_rate == 0
    &&& b.angle_index == 0
}

proof fn lemma_merged_is_unmeasured(dst: TsStream, src: TsStream)
    requires
        is_unmeasured(dst.common()),
    ensures
        is_unmeasured(merged(dst, src).common()),
{
}

/// No measurement is left in a resolved playlist's streams, whatever the scan had counted.
pub proof fn lemma_presented_streams_are_unmeasured(reference: MetaView)
    ensures
        forall|pid: u16| #[trigger]
            presented(reference).contains_key(pid) ==> is_unmeasured(
                presented(reference)[pid].common(),
            ),
{
    let declared = reference.clip_streams.map_values(|s: TsStream| reset_copy(s));
    assert forall|pid: u16| declared.contains_key(pid) implies is_unmeasured(
        (#[trigger] declared[pid]).common(),
    ) by {
        assert(declared[pid] == reset_copy(reference.clip_streams[pid]));
    }
    match reference.scanned {
        Some(file) => {
            let with_view = if file.interleaved_file is Some && !declared.contains_key(MVC_PID)
                && file.streams.contains_key(MVC_PID) {
                declared.insert(MVC_PID, reset_copy(file.streams[MVC_PID]))
            } else {
                declared
            };
            assert forall|pid: u16| #[trigger]
                presented(reference).contains_key(pid) implies is_unmeasured(
                presented(reference)[pid].common(),
            ) by {
                assert(with_view.contains_key(pid));
                let d = with_view[pid];
                if pid != MVC_PID || declared.contains_key(pid) {
                    assert(d == declared[pid]);
                }
                assert(is_unmeasured(d.common()));
                lemma_merged_is_unmeasured(d, file.streams[pid]);
            }
        },
        None => {},
    }
}

} // verus!
