//! What the chapter statistics rest on: the frames that count, and nothing else.

use vstd::prelude::*;

use super::chapters::{
    chapter_rows, counted, end_of, framed, frames_taken, no_tally, position_of, row, rows_from,
    ChapterClipView, ChapterSummary, Tally,
};
use super::m2ts::TsStreamDiagnostics;

verus! {

/// A frame, and where it lies on the playlist's timeline.
pub type Placed = (i128, TsStreamDiagnostics);

/// The frames of a clip that count, from the `i`th on: those before its in-time do not.
pub open spec fn clip_frames(
    clip: ChapterClipView,
    diags: Seq<TsStreamDiagnostics>,
    i: int,
) -> Seq<Placed>
    decreases diags.len() - i,
{
    if i < 0 || i >= diags.len() {
        Seq::empty()
    } else if diags[i].marker < clip.time_in {
        clip_frames(clip, diags, i + 1)
    } else {
        seq![(position_of(clip, diags[i]), diags[i])] + clip_frames(clip, diags, i + 1)
    }
}

/// The frames that count, from the `i`th frame of the `c`th clip on: those of clips of the
/// main angle that were measured.
pub open spec fn counted_frames(clips: Seq<ChapterClipView>, c: int, i: int) -> Seq<Placed>
    decreases clips.len() - c,
{
    if c < 0 || c >= clips.len() {
        Seq::empty()
    } else {
        match counted(clips[c]) {
            None => counted_frames(clips, c + 1, 0),
            Some(diags) => clip_frames(clips[c], diags, i) + counted_frames(clips, c + 1, 0),
        }
    }
}

/// The chapter, the position and the frames that are left after those up to the one that
/// reaches `end`.
pub open spec fn taken(t: Tally, position: i128, frames: Seq<Placed>, end: i128) -> (
    Tally,
    i128,
    Seq<Placed>,
)
    decreases frames.len(),
{
    if position >= end || frames.len() == 0 {
        (t, position, frames)
    } else {
        taken(framed(t, frames[0].1, frames[0].0), frames[0].0, frames.drop_first(), end)
    }
}

/// The rows of the chapters from the `chapter`th on, over the frames that are left.
pub open spec fn rows_over(
    t: Tally,
    position: i128,
    chapters: Seq<i64>,
    total_length: i128,
    frames: Seq<Placed>,
    chapter: int,
) -> Seq<ChapterSummary>
    decreases chapters.len() - chapter,
{
    if chapter < 0 || chapter >= chapters.len() {
        Seq::empty()
    } else {
        let end = end_of(chapters, total_length, chapter);
        let (t2, position2, rest) = taken(t, position, frames, end);
        seq![row(t2, chapters[chapter], end)] + rows_over(
            no_tally(),
            position2,
            chapters,
            total_length,
            rest,
            chapter + 1,
        )
    }
}

proof fn lemma_taken_of_a_clip(
    t: Tally,
    position: i128,
    clip: ChapterClipView,
    diags: Seq<TsStreamDiagnostics>,
    i: int,
    end: i128,
    tail: Seq<Placed>,
)
    requires
        0 <= i,
    ensures
        ({
            let (t2, position2, i2) = frames_taken(t, position, clip, diags, i, end);
            let all = taken(t, position, clip_frames(clip, diags, i) + tail, end);
            &&& i2 >= 0
            &&& if i2 < diags.len() {
                position2 >= end && all == (t2, position2, clip_frames(clip, diags, i2) + tail)
            } else {
                all == taken(t2, position2, tail, end)
            }
        }),
    decreases diags.len() - i,
{
    let frames = clip_frames(clip, diags, i);
    if i >= diags.len() {
        assert(frames + tail =~= tail);
    } else if position < end {
        if diags[i].marker < clip.time_in {
            lemma_taken_of_a_clip(t, position, clip, diags, i + 1, end, tail);
        } else {
            let here = position_of(clip, diags[i]);
            assert((frames + tail).drop_first() =~= clip_frames(clip, diags, i + 1) + tail);
            assert((frames + tail)[0] == (here, diags[i]));
            lemma_taken_of_a_clip(
                framed(t, diags[i], here),
                here,
                clip,
                diags,
                i + 1,
                end,
                tail,
            );
        }
    }
}

/// The walk over the clips is the walk over the frames that count.
pub proof fn lemma_rows_over_the_frames(
    t: Tally,
    position: i128,
    chapters: Seq<i64>,
    total_length: i128,
    clips: Seq<ChapterClipView>,
    chapter: int,
    clip: int,
    frame: int,
)
    requires
        0 <= clip,
        0 <= frame,
    ensures
        rows_from(t, position, chapters, total_length, clips, chapter, clip, frame) == rows_over(
            t,
            position,
            chapters,
            total_length,
            counted_frames(clips, clip, frame),
            chapter,
        ),
    decreases chapters.len() - chapter, clips.len() - clip,
{
    if 0 <= chapter < chapters.len() {
        let end = end_of(chapters, total_length, chapter);
        if clip >= clips.len() {
            lemma_rows_over_the_frames(
                no_tally(),
                position,
                chapters,
                total_length,
                clips,
                chapter + 1,
                clip,
                frame,
            );
        } else {
            match counted(clips[clip]) {
                None => {
                    lemma_rows_over_the_frames(
                        t,
                        position,
                        chapters,
                        total_length,
                        clips,
                        chapter,
                        clip + 1,
                        0,
                    );
                },
                Some(diags) => {
                    let tail = counted_frames(clips, clip + 1, 0);
                    lemma_taken_of_a_clip(t, position, clips[clip], diags, frame, end, tail);
                    let (t2, position2, frame2) = frames_taken(
                        t,
                        position,
                        clips[clip],
                        diags,
                        frame,
                        end,
                    );
                    if frame2 >= diags.len() {
                        lemma_rows_over_the_frames(
                            t2,
                            position2,
                            chapters,
                            total_length,
                            clips,
                            chapter,
                            clip + 1,
                            0,
                        );
                    } else {
                        lemma_rows_over_the_frames(
                            no_tally(),
                            position2,
                            chapters,
                            total_length,
                            clips,
                            chapter + 1,
                            clip,
                            frame2,
                        );
                    }
                },
            }
        }
    }
}

/// The chapters rest on the frames that count alone: two lists of clips that have the same
/// ones have the same rows.
pub proof fn lemma_chapters_rest_on_the_counted_frames(
    chapters: Seq<i64>,
    total_length: i128,
    a: Seq<ChapterClipView>,
    b: Seq<ChapterClipView>,
)
    requires
        counted_frames(a, 0, 0) == counted_frames(b, 0, 0),
    ensures
        chapter_rows(chapters, total_length, a) == chapter_rows(chapters, total_length, b),
{
    lemma_rows_over_the_frames(no_tally(), 0, chapters, total_length, a, 0, 0, 0);
    lemma_rows_over_the_frames(no_tally(), 0, chapters, total_length, b, 0, 0, 0);
}

proof fn lemma_frames_without_clip(clips: Seq<ChapterClipView>, k: int, c: int)
    requires
        0 <= k < clips.len(),
        counted(clips[k]) is None,
        0 <= c <= clips.len(),
    ensures
        c <= k ==> counted_frames(clips.remove(k), c, 0) == counted_frames(clips, c, 0),
        c > k ==> counted_frames(clips.remove(k), c - 1, 0) == counted_frames(clips, c, 0),
    decreases clips.len() - c,
{
    let rest = clips.remove(k);
    if c < clips.len() {
        lemma_frames_without_clip(clips, k, c + 1);
        if c < k {
            assert(rest[c] == clips[c]);
        } else if c > k {
            assert(rest[c - 1] == clips[c]);
        }
    }
}

/// A clip of another angle, and one that was not measured, makes no difference to the
/// chapters: without it they are the same.
pub proof fn lemma_chapters_are_the_same_without_an_uncounted_clip(
    chapters: Seq<i64>,
    total_length: i128,
    clips: Seq<ChapterClipView>,
    k: int,
)
    requires
        0 <= k < clips.len(),
        clips[k].angle_index != 0 || clips[k].diagnostics is None,
    ensures
        chapter_rows(chapters, total_length, clips.remove(k)) == chapter_rows(
            chapters,
            total_length,
            clips,
        ),
{
    lemma_frames_without_clip(clips, k, 0);
    lemma_chapters_rest_on_the_counted_frames(chapters, total_length, clips.remove(k), clips);
}

/// A clip without one of its frames.
pub open spec fn without_frame(clip: ChapterClipView, j: int) -> ChapterClipView {
    ChapterClipView {
        diagnostics: match clip.diagnostics {
            Some(diags) => Some(diags.remove(j)),
            None => None,
        },
        ..clip
    }
}

proof fn lemma_clip_without_frame(
    clip: ChapterClipView,
    diags: Seq<TsStreamDiagnostics>,
    j: int,
    i: int,
)
    requires
        0 <= j < diags.len(),
        diags[j].marker < clip.time_in,
        0 <= i <= diags.len(),
    ensures
        i <= j ==> clip_frames(without_frame(clip, j), diags.remove(j), i) == clip_frames(
            clip,
            diags,
            i,
        ),
        i > j ==> clip_frames(without_frame(clip, j), diags.remove(j), i - 1) == clip_frames(
            clip,
            diags,
            i,
        ),
    decreases diags.len() - i,
{
    let rest = diags.remove(j);
    if i < diags.len() {
        lemma_clip_without_frame(clip, diags, j, i + 1);
        if i < j {
            assert(rest[i] == diags[i]);
        } else if i > j {
            assert(rest[i - 1] == diags[i]);
        }
    }
}

proof fn lemma_frames_without_frame(clips: Seq<ChapterClipView>, k: int, j: int, c: int)
    requires
        0 <= k < clips.len(),
        clips[k].diagnostics is Some,
        0 <= j < clips[k].diagnostics->Some_0.len(),
        clips[k].diagnostics->Some_0[j].marker < clips[k].time_in,
        0 <= c,
    ensures
        counted_frames(clips.update(k, without_frame(clips[k], j)), c, 0) == counted_frames(
            clips,
            c,
            0,
        ),
    decreases clips.len() - c,
{
    if c < clips.len() {
        lemma_frames_without_frame(clips, k, j, c + 1);
        if c == k {
            lemma_clip_without_frame(clips[k], clips[k].diagnostics->Some_0, j, 0);
        }
    }
}

/// A frame before its clip's in-time makes no difference to the chapters: without it they
/// are the same.
pub proof fn lemma_chapters_are_the_same_without_an_early_frame(
    chapters: Seq<i64>,
    total_length: i128,
    clips: Seq<ChapterClipView>,
    k: int,
    j: int,
)
    requires
        0 <= k < clips.len(),
        clips[k].diagnostics is Some,
        0 <= j < clips[k].diagnostics->Some_0.len(),
        clips[k].diagnostics->Some_0[j].marker < clips[k].time_in,
    ensures
        chapter_rows(chapters, total_length, clips.update(k, without_frame(clips[k], j)))
            == chapter_rows(chapters, total_length, clips),
{
    lemma_frames_without_frame(clips, k, j, 0);
    lemma_chapters_rest_on_the_counted_frames(
        chapters,
        total_length,
        clips.update(k, without_frame(clips[k], j)),
        clips,
    );
}

} // verus!
