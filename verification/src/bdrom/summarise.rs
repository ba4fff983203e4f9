//! From a parsed playlist and the scanned files to the playlist's summary.

use std::collections::BTreeMap;

use vstd::prelude::*;
use vstd::std_specs::btree::*;
use vstd::string::*;

use super::chapters::{
    chapter_clip_views, chapter_rows, walk_chapters, ChapterClip, ChapterClipView, ChapterSummary,
};
use super::clpi::{clip_views, ClipView, TsStreamClip, TsStreamClipFile};
use super::disc::{
    capped, clip_summary_views, tally_views, ClipStreamTally, ClipSummary, ClipSummaryView,
    PlaylistSummary, PlaylistSummaryView, TallyView,
};
use super::m2ts::{FileView, TsStreamDiagnostics, TsStreamFile};
use super::mpls::{total, total_length, PlaylistView, TsPlaylistFile};
use super::present::{
    build_sorted_streams, row_views, sorted_rows, StreamRow, StreamSummary, StreamText,
};
use super::resolve::{
    collect_clip_metas, length_of, meta_views, metas_of, select_reference, selected, sibling, stem,
    MetaView,
};
use crate::error::BdError;
use crate::maps::{lemma_keys_from_members, pids, sorted_keys};
use crate::names::{find, lemma_find_views, table_views, NameTable};
use crate::primitives::Pid;
use crate::stream::TsStream;
use crate::text::same;

verus! {

/// The size under a name; `0` where there is none.
pub open spec fn size_at(sizes: Seq<(Seq<char>, u64)>, name: Seq<char>) -> u64 {
    match find(sizes, name) {
        Some(size) => size,
        None => 0,
    }
}

/// A file's tallies of the first `n` of its streams, those that the playlist presents.
pub open spec fn tallies_of<T: StreamText>(
    text: T,
    file: FileView,
    presented: Map<u16, TsStream>,
    n: int,
) -> Seq<TallyView>
    decreases n,
{
    if n <= 0 {
        Seq::empty()
    } else {
        let before = tallies_of(text, file, presented, n - 1);
        let pid = file.stream_order[n - 1];
        if file.streams.contains_key(pid) && presented.contains_key(pid) {
            let s = file.streams[pid];
            before.push(
                TallyView {
                    pid: Pid { raw: pid },
                    stream_type: s.common().stream_type,
                    codec_short_name: text.short_name_of(s),
                    payload_bytes: s.common().payload_bytes,
                    packet_count: s.common().packet_count,
                },
            )
        } else {
            before
        }
    }
}

/// The name that a file is shown with: that of its interleaved source where it has one.
pub open spec fn shown_name(file: FileView) -> Seq<char> {
    match file.interleaved_file {
        Some(name) => name,
        None => file.name,
    }
}

/// A clip's summary.
pub open spec fn clip_row<T: StreamText>(
    text: T,
    p: PlaylistView,
    clip: ClipView,
    stream_files: Seq<(Seq<char>, u64)>,
    interleaved_files: Seq<(Seq<char>, u64)>,
    measured: Seq<(Seq<char>, FileView)>,
) -> ClipSummaryView {
    let file = find(measured, clip.name);
    ClipSummaryView {
        name: clip.name,
        display_name: match file {
            Some(f) => shown_name(f),
            None => clip.name,
        },
        file_size: size_at(stream_files, clip.name),
        interleaved_file_size: size_at(interleaved_files, stem(clip.name) + ".SSIF"@),
        angle_index: clip.angle_index,
        relative_time_in: clip.relative_time_in,
        length: clip.length,
        payload_bytes: clip.payload_bytes,
        packet_count: clip.packet_count,
        packet_ticks: clip.packet_ticks,
        file_ticks: match file {
            Some(f) => f.length,
            None => 0,
        },
        streams: match file {
            Some(f) => tallies_of(text, f, p.streams, f.stream_order.len() as int),
            None => Seq::empty(),
        },
    }
}

/// The clips' summaries.
pub open spec fn clip_rows<T: StreamText>(
    text: T,
    p: PlaylistView,
    stream_files: Seq<(Seq<char>, u64)>,
    interleaved_files: Seq<(Seq<char>, u64)>,
    measured: Seq<(Seq<char>, FileView)>,
) -> Seq<ClipSummaryView> {
    p.clips.map_values(
        |c: ClipView| clip_row(text, p, c, stream_files, interleaved_files, measured),
    )
}

/// The first of `pids`, from the `i`th on, whose stream is a video stream.
pub open spec fn first_video_from(streams: Map<u16, TsStream>, pids: Seq<u16>, i: int) -> Option<u16>
    decreases pids.len() - i,
{
    if i < 0 || i >= pids.len() {
        None
    } else if streams[pids[i]].common().video() {
        Some(pids[i])
    } else {
        first_video_from(streams, pids, i + 1)
    }
}

/// The lowest PID of a video stream.
pub open spec fn first_video(streams: Map<u16, TsStream>) -> Option<u16> {
    first_video_from(streams, sorted_keys(streams.dom()), 0)
}

/// The windows of a clip's file that the chapters are measured by.
pub open spec fn windows_of_clip(
    clip: ClipView,
    pid: Option<u16>,
    measured: Seq<(Seq<char>, FileView)>,
) -> Option<Seq<TsStreamDiagnostics>> {
    match (pid, find(measured, clip.name)) {
        (Some(pid), Some(f)) => if f.stream_diagnostics.contains_key(pid) {
            Some(f.stream_diagnostics[pid])
        } else {
            None
        },
        _ => None,
    }
}

/// The clips as the chapter walk takes them.
pub open spec fn walk_clips(
    clips: Seq<ClipView>,
    pid: Option<u16>,
    measured: Seq<(Seq<char>, FileView)>,
) -> Seq<ChapterClipView> {
    clips.map_values(
        |c: ClipView|
            ChapterClipView {
                angle_index: c.angle_index,
                time_in: c.time_in,
                relative_time_in: c.relative_time_in,
                diagnostics: windows_of_clip(c, pid, measured),
            },
    )
}

/// The chapters' rows: measured by the lowest video PID that the playlist presents.
pub open spec fn chapters_of(
    p: PlaylistView,
    measured: Seq<(Seq<char>, FileView)>,
    length: i128,
) -> Seq<ChapterSummary> {
    chapter_rows(p.chapters, length, walk_clips(p.clips, first_video(p.streams), measured))
}

/// Whether two clips play the same stream file from the same in-time.
pub open spec fn replays(a: ClipView, b: ClipView) -> bool {
    a.angle_index == 0 && b.angle_index == 0 && a.name == b.name && a.time_in == b.time_in
}

/// Whether two main clips play the same stream file from the same in-time.
pub open spec fn loops(clips: Seq<ClipView>) -> bool {
    exists|i: int, j: int| 0 <= i < j < clips.len() && #[trigger] replays(clips[i], clips[j])
}

/// The size of the first `n` clips' stream files.
pub open spec fn files_size(
    clips: Seq<ClipView>,
    stream_files: Seq<(Seq<char>, u64)>,
    n: int,
) -> int
    decreases n,
{
    if n <= 0 {
        0
    } else {
        files_size(clips, stream_files, n - 1) + size_at(stream_files, clips[n - 1].name)
    }
}

/// The size of the first `n` clips' interleaved files.
pub open spec fn interleaved_size(
    clips: Seq<ClipView>,
    interleaved_files: Seq<(Seq<char>, u64)>,
    n: int,
) -> int
    decreases n,
{
    if n <= 0 {
        0
    } else {
        interleaved_size(clips, interleaved_files, n - 1) + size_at(
            interleaved_files,
            stem(clips[n - 1].name) + ".SSIF"@,
        )
    }
}

/// How many of the first `n` rows are presented by more than the interleaved source.
pub open spec fn presented_count(rows: Seq<StreamRow>, n: int) -> int
    decreases n,
{
    if n <= 0 {
        0
    } else {
        presented_count(rows, n - 1) + (if rows[n - 1].ssif_only {
            0int
        } else {
            1int
        })
    }
}

/// The rows that a playlist presents by its reference clip; without one it has none.
pub open spec fn rows_of<T: StreamText>(text: T, p: PlaylistView, metas: Seq<MetaView>) -> Seq<
    StreamRow,
> {
    match selected(metas) {
        Some(r) => sorted_rows(
            text,
            r.clip_streams,
            match r.scanned {
                Some(f) => Some(f.streams),
                None => None,
            },
            p,
            length_of(p.angle_count) as int,
        ),
        None => Seq::empty(),
    }
}

/// A playlist's summary by the clips that may stand for it, and whether it is of 25 or 50
/// frames per second.
pub open spec fn summary_by<T: StreamText>(
    text: T,
    p: PlaylistView,
    metas: Seq<MetaView>,
    stream_files: Seq<(Seq<char>, u64)>,
    interleaved_files: Seq<(Seq<char>, u64)>,
    measured: Seq<(Seq<char>, FileView)>,
) -> (PlaylistSummaryView, bool) {
    let n = p.clips.len() as int;
    let rows = rows_of(text, p, metas);
    let length = total(p.clips) as i128;
    (
        PlaylistSummaryView {
            name: p.name,
            total_length: length,
            file_size: capped(files_size(p.clips, stream_files, n)),
            interleaved_file_size: capped(
                interleaved_size(p.clips, interleaved_files, n),
            ),
            chapter_count: p.chapters.len() as int,
            stream_count: presented_count(rows, rows.len() as int),
            angle_count: length_of(p.angle_count) as int,
            has_loops: loops(p.clips),
            streams: rows,
            clips: clip_rows(text, p, stream_files, interleaved_files, measured),
            chapters: chapters_of(p, measured, length),
        },
        match selected(metas) {
            Some(r) => r.has_50hz_video,
            None => false,
        },
    )
}

/// The tallies of a file's streams that the playlist presents.
fn build_tallies<T: StreamText>(
    text: &T,
    file: &TsStreamFile,
    presented: &BTreeMap<u16, TsStream>,
) -> (r: Vec<ClipStreamTally>)
    ensures
        tally_views(r@) == tallies_of(
            *text,
            file@,
            presented@,
            file@.stream_order.len() as int,
        ),
{
    broadcast use group_btree_axioms;

    let mut out: Vec<ClipStreamTally> = Vec::new();
    let mut i: usize = 0;
    proof {
        assert(tally_views(out@) =~= Seq::empty());
    }
    while i < file.stream_order.len()
        invariant
            i <= file.stream_order@.len(),
            tally_views(out@) == tallies_of(*text, file@, presented@, i as int),
        decreases file.stream_order@.len() - i,
    {
        let pid: u16 = file.stream_order[i];
        if let Some(stream) = file.streams.get(&pid) {
            if presented.contains_key(&pid) {
                let ghost before = tally_views(out@);
                let tally = ClipStreamTally {
                    pid: Pid::new(pid),
                    stream_type: stream.stream_type(),
                    codec_short_name: text.codec_short_name(stream),
                    payload_bytes: stream.base().payload_bytes,
                    packet_count: stream.base().packet_count,
                };
                let ghost added = tally@;
                out.push(tally);
                proof {
                    assert(tally_views(out@) =~= before.push(added));
                }
            }
        }
        i = i + 1;
    }
    out
}

/// The size under a name; `0` where there is none.
fn size_or_zero(sizes: &NameTable<u64>, name: &str) -> (r: u64)
    ensures
        r == size_at(sizes@, name@),
{
    match sizes.get(name) {
        Some(size) => *size,
        None => 0,
    }
}

/// Builds the clips' summaries: each clip's own tallies, and its stream file's tallies of
/// the streams that the playlist presents.
pub fn build_clip_summaries<T: StreamText>(
    text: &T,
    playlist: &TsPlaylistFile,
    stream_files: &NameTable<u64>,
    interleaved_files: &NameTable<u64>,
    measured: &NameTable<TsStreamFile>,
) -> (r: Vec<ClipSummary>)
    ensures
        clip_summary_views(r@) == clip_rows(
            *text,
            playlist@,
            stream_files@,
            interleaved_files@,
            table_views(measured@),
        ),
{
    let ghost p = playlist@;
    let mut out: Vec<ClipSummary> = Vec::new();
    let mut i: usize = 0;
    while i < playlist.stream_clips.len()
        invariant
            i <= playlist.stream_clips@.len(),
            p == playlist@,
            out@.len() == i,
            forall|k: int|
                0 <= k < i ==> (#[trigger] out@[k])@ == clip_row(
                    *text,
                    p,
                    p.clips[k],
                    stream_files@,
                    interleaved_files@,
                    table_views(measured@),
                ),
        decreases playlist.stream_clips@.len() - i,
    {
        let clip = &playlist.stream_clips[i];
        assert(p.clips[i as int] == clip@);
        let name = clip.name.as_str();
        proof {
            lemma_find_views(measured@, name@);
        }
        let (display_name, file_ticks, streams) = match measured.get(name) {
            Some(file) => (
                file.display_name(true).to_owned(),
                file.length,
                build_tallies(text, file, &playlist.streams),
            ),
            None => (clip.name.clone(), 0, Vec::new()),
        };
        proof {
            if find(measured@, clip.name@) is None {
                assert(tally_views(streams@) =~= Seq::empty());
            }
        }
        let ssif = sibling(name, ".SSIF");
        let row = ClipSummary {
            name: clip.name.clone(),
            display_name,
            file_size: size_or_zero(stream_files, name),
            interleaved_file_size: size_or_zero(interleaved_files, ssif.as_str()),
            angle_index: clip.angle_index,
            relative_time_in: clip.relative_time_in,
            length: clip.length,
            payload_bytes: clip.payload_bytes,
            packet_count: clip.packet_count,
            packet_ticks: clip.packet_ticks,
            file_ticks,
            streams,
        };
        out.push(row);
        i = i + 1;
    }
    proof {
        assert(clip_summary_views(out@) =~= clip_rows(
            *text,
            p,
            stream_files@,
            interleaved_files@,
            table_views(measured@),
        ));
    }
    out
}

/// The lowest PID of a video stream.
fn first_video_pid(streams: &BTreeMap<u16, TsStream>) -> (r: Option<u16>)
    ensures
        r == first_video(streams@),
{
    broadcast use group_btree_axioms;

    let keys = pids(streams);
    proof {
        lemma_keys_from_members(streams@.dom(), 0);
    }
    let mut i: usize = 0;
    while i < keys.len()
        invariant
            i <= keys@.len(),
            keys@ == sorted_keys(streams@.dom()),
            forall|a: int| 0 <= a < keys@.len() ==> streams@.dom().contains(#[trigger] keys@[a]),
            first_video_from(streams@, keys@, i as int) == first_video(streams@),
        decreases keys@.len() - i,
    {
        let pid: u16 = keys[i];
        assert(streams@.dom().contains(keys@[i as int]));
        if let Some(stream) = streams.get(&pid) {
            if stream.base().is_video_stream() {
                return Some(pid);
            }
        }
        i = i + 1;
    }
    None
}

/// The windows that a file has of a PID.
fn windows<'a>(file: Option<&'a TsStreamFile>, pid: Option<u16>) -> (r: Option<
    &'a [TsStreamDiagnostics],
>)
    ensures
        match (file, pid) {
            (Some(f), Some(p)) => match r {
                Some(list) => f@.stream_diagnostics.contains_key(p) && f@.stream_diagnostics[p]
                    == list@,
                None => !f@.stream_diagnostics.contains_key(p),
            },
            _ => r is None,
        },
{
    broadcast use group_btree_axioms;

    match (file, pid) {
        (Some(f), Some(p)) => match f.stream_diagnostics.get(&p) {
            Some(list) => Some(list.as_slice()),
            None => None,
        },
        _ => None,
    }
}

/// Walks a playlist's chapter marks against what was measured of its first video stream.
pub fn build_chapter_summaries(
    playlist: &TsPlaylistFile,
    measured: &NameTable<TsStreamFile>,
    length: i128,
) -> (r: Vec<ChapterSummary>)
    ensures
        r@ == chapters_of(playlist@, table_views(measured@), length),
{
    let ghost p = playlist@;
    let pid = first_video_pid(&playlist.streams);
    let mut clips: Vec<ChapterClip<'_>> = Vec::new();
    let mut i: usize = 0;
    while i < playlist.stream_clips.len()
        invariant
            i <= playlist.stream_clips@.len(),
            p == playlist@,
            clips@.len() == i,
            pid == first_video(p.streams),
            forall|k: int|
                0 <= k < i ==> (#[trigger] clips@[k])@ == walk_clips(p.clips, pid, table_views(measured@))[k],
        decreases playlist.stream_clips@.len() - i,
    {
        let clip = &playlist.stream_clips[i];
        proof {
            assert(p.clips[i as int] == clip@);
            lemma_find_views(measured@, clip.name@);
        }
        clips.push(
            ChapterClip {
                angle_index: clip.angle_index,
                time_in: clip.time_in,
                relative_time_in: clip.relative_time_in,
                diagnostics: windows(measured.get(clip.name.as_str()), pid),
            },
        );
        i = i + 1;
    }
    proof {
        assert(chapter_clip_views(clips@) =~= walk_clips(p.clips, pid, table_views(measured@)));
    }
    walk_chapters(playlist.chapters.as_slice(), length, clips.as_slice())
}

/// Whether two main clips of a playlist play the same stream file from the same in-time.
pub fn playlist_has_loops(playlist: &TsPlaylistFile) -> (r: bool)
    ensures
        r == loops(playlist@.clips),
{
    let ghost v = playlist@.clips;
    let clips = &playlist.stream_clips;
    let n: usize = clips.len();
    let mut j: usize = 0;
    while j < n
        invariant
            j <= n,
            n == clips@.len(),
            v == clip_views(clips@),
            v == playlist@.clips,
            forall|a: int, b: int| 0 <= a < b < j ==> !#[trigger] replays(v[a], v[b]),
        decreases n - j,
    {
        let mut i: usize = 0;
        while i < j
            invariant
                i <= j,
                j < n,
                n == clips@.len(),
                v == clip_views(clips@),
                v == playlist@.clips,
                forall|a: int| 0 <= a < i ==> !#[trigger] replays(v[a], v[j as int]),
            decreases j - i,
        {
            assert(v[i as int] == clips@[i as int]@);
            assert(v[j as int] == clips@[j as int]@);
            if clips[i].angle_index == 0 && clips[j].angle_index == 0 && same(
                clips[i].name.as_str(),
                clips[j].name.as_str(),
            ) && clips[i].time_in == clips[j].time_in {
                assert(replays(v[i as int], v[j as int]));
                return true;
            }
            i = i + 1;
        }
        j = j + 1;
    }
    false
}

/// How many rows are presented by more than the interleaved source.
fn count_presented(rows: &Vec<StreamSummary>) -> (r: usize)
    ensures
        r as int == presented_count(row_views(rows@), rows@.len() as int),
{
    let ghost v = row_views(rows@);
    let mut count: usize = 0;
    let mut i: usize = 0;
    while i < rows.len()
        invariant
            i <= rows@.len(),
            count <= i,
            v == row_views(rows@),
            count as int == presented_count(v, i as int),
        decreases rows@.len() - i,
    {
        assert(v[i as int] == rows@[i as int]@);
        if !rows[i].ssif_only {
            count = count + 1;
        }
        i = i + 1;
    }
    count
}

proof fn lemma_sizes_nonneg(
    clips: Seq<ClipView>,
    stream_files: Seq<(Seq<char>, u64)>,
    interleaved_files: Seq<(Seq<char>, u64)>,
    n: int,
)
    ensures
        files_size(clips, stream_files, n) >= 0,
        interleaved_size(clips, interleaved_files, n) >= 0,
    decreases n,
{
    if n > 0 {
        lemma_sizes_nonneg(clips, stream_files, interleaved_files, n - 1);
    }
}

/// The sizes of a playlist's stream files and of its interleaved files.
fn playlist_sizes(
    clips: &Vec<TsStreamClip>,
    stream_files: &NameTable<u64>,
    interleaved_files: &NameTable<u64>,
) -> (r: (u64, u64))
    ensures
        r.0 == capped(files_size(clip_views(clips@), stream_files@, clips@.len() as int)),
        r.1 == capped(
            interleaved_size(
                clip_views(clips@),
                interleaved_files@,
                clips@.len() as int,
            ),
        ),
{
    let ghost v = clip_views(clips@);
    let mut plain: u64 = 0;
    let mut interleaved: u64 = 0;
    let mut i: usize = 0;
    while i < clips.len()
        invariant
            i <= clips@.len(),
            v == clip_views(clips@),
            plain == capped(files_size(v, stream_files@, i as int)),
            interleaved == capped(
                interleaved_size(v, interleaved_files@, i as int),
            ),
        decreases clips@.len() - i,
    {
        let name = clips[i].name.as_str();
        assert(v[i as int] == clips@[i as int]@);
        proof {
            lemma_sizes_nonneg(v, stream_files@, interleaved_files@, i as int);
        }
        plain = plain.saturating_add(size_or_zero(stream_files, name));
        let ssif = sibling(name, ".SSIF");
        interleaved = interleaved.saturating_add(
            size_or_zero(interleaved_files, ssif.as_str()),
        );
        i = i + 1;
    }
    (plain, interleaved)
}

/// Summarises a playlist, and says whether it is of 25 or 50 frames per second.
///
/// Fails with [`BdError::MissingClipFile`] where a main clip has no clip information.
pub fn build_summary<T: StreamText>(
    text: &T,
    playlist: &TsPlaylistFile,
    clip_files: &NameTable<TsStreamClipFile>,
    stream_files: &NameTable<u64>,
    interleaved_files: &NameTable<u64>,
    scanned: &NameTable<TsStreamFile>,
    measured: &NameTable<TsStreamFile>,
) -> (r: Result<(PlaylistSummary, bool), BdError>)
    ensures
        match metas_of(
            playlist@.clips,
            table_views(clip_files@),
            stream_files@,
            table_views(scanned@),
            playlist@.clips.len() as int,
        ) {
            Ok(metas) => {
                let (summary, hz) = summary_by(
                    *text,
                    playlist@,
                    metas,
                    stream_files@,
                    interleaved_files@,
                    table_views(measured@),
                );
                r is Ok && r->Ok_0.0@ == summary && r->Ok_0.1 == hz
            },
            Err(f) => r is Err && r->Err_0@ == f,
        },
{
    let ghost p = playlist@;
    let metas = collect_clip_metas(playlist, clip_files, stream_files, scanned)?;
    let (file_size, interleaved_file_size) = playlist_sizes(
        &playlist.stream_clips,
        stream_files,
        interleaved_files,
    );
    let length: i128 = total_length(&playlist.stream_clips);
    let angle_count: usize = if playlist.angle_count < 0 {
        0
    } else {
        playlist.angle_count as usize
    };
    let mut is_50hz = false;
    let streams = match select_reference(&metas) {
        Some(at) => {
            let reference = &metas[at];
            is_50hz = reference.has_50hz_video;
            let found = match reference.scanned {
                Some(file) => Some(&file.streams),
                None => None,
            };
            build_sorted_streams(text, reference.clip_streams, found, playlist, angle_count)
        },
        None => Vec::new(),
    };
    proof {
        if selected(meta_views(metas@)) is None {
            assert(row_views(streams@) =~= Seq::empty());
        }
        assert(row_views(streams@) == rows_of(*text, p, meta_views(metas@)));
    }
    let summary = PlaylistSummary {
        name: playlist.name.clone(),
        total_length: length,
        file_size,
        interleaved_file_size,
        chapter_count: playlist.chapters.len(),
        stream_count: count_presented(&streams),
        angle_count,
        has_loops: playlist_has_loops(playlist),
        streams,
        clips: build_clip_summaries(text, playlist, stream_files, interleaved_files, measured),
        chapters: build_chapter_summaries(playlist, measured, length),
    };
    Ok((summary, is_50hz))
}

} // verus!
