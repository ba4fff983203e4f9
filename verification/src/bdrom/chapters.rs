//! Per-chapter video statistics: a walk over the windows of a playlist's first video
//! stream.
//!
//! [`walk_chapters`] takes the playlist's chapter marks and, clip by clip, the video
//! windows, and gives one [`ChapterSummary`] per chapter: the average rate, the peak
//! rates over 1, 5 and 10 seconds with the time each peak starts at, and the average and
//! the largest frame.
//!
//! Every frame goes into all three sliding windows. Once a window is strictly longer
//! than its span, its rate may be a peak, and its oldest frame leaves. A peak counts only
//! where it beats the one before strictly and where the window starts strictly behind the
//! start of the playlist. Frames before a clip's in-time are passed over. At a chapter's
//! end everything starts over but the playlist position. Clips of other angles, and clips
//! without windows, are passed over whole.
//!
//! Sizes are bytes, times ticks, and a rate is the quotient of the two, so nothing is
//! rounded.

use std::collections::VecDeque;

use vstd::prelude::*;
use vstd::std_specs::vecdeque::*;
use vstd::string::*;

use super::m2ts::TsStreamDiagnostics;

verus! {

/// A time in units of 100 ns: 1000 of them are 9 ticks. What is left of a unit is dropped,
/// on either side of zero, and a time out of range is the nearest that is not.
pub open spec fn hundred_ns(ticks: int) -> int {
    let units = if ticks < 0 {
        -((-ticks * 1000) / 9)
    } else {
        (ticks * 1000) / 9
    };
    if units > i64::MAX {
        i64::MAX as int
    } else if units < i64::MIN {
        i64::MIN as int
    } else {
        units
    }
}

/// A time in units of 100 ns, as chapter times are shown: truncated, never rounded.
pub fn seconds_to_ticks(time: i64) -> (r: i64)
    ensures
        r == hundred_ns(time as int),
{
    let wide: i128 = if time < 0 {
        -(-(time as i128) * 1000 / 9)
    } else {
        time as i128 * 1000 / 9
    };
    if wide > 0x7FFF_FFFF_FFFF_FFFF {
        i64::MAX
    } else if wide < -0x8000_0000_0000_0000 {
        i64::MIN
    } else {
        wide as i64
    }
}

/// Bytes over ticks.
#[derive(Debug, Clone, Copy, PartialEq, Eq, Structural)]
pub struct Rate {
    /// The bytes.
    pub bytes: u128,
    /// The ticks, above `0`.
    pub ticks: i128,
}

impl Rate {
    /// Whether this rate is above another.
    pub open spec fn above(self, other: Rate) -> bool {
        self.bytes * other.ticks > other.bytes * self.ticks
    }
}

/// No bytes.
pub open spec fn no_rate() -> Rate {
    Rate { bytes: 0, ticks: 1 }
}

/// Bytes shared among frames.
#[derive(Debug, Clone, Copy, PartialEq, Eq, Structural)]
pub struct Share {
    /// The bytes.
    pub bytes: u128,
    /// The number of frames, above `0`.
    pub frames: u64,
}

/// One chapter's measured video statistics.
#[derive(Debug, Clone, Copy, PartialEq, Eq, Structural)]
pub struct ChapterSummary {
    /// Where the chapter starts.
    pub time_in: i64,
    /// How long the chapter is: to the next mark, or to the end of the playlist.
    pub length: i128,
    /// The average rate over the chapter.
    pub avg_rate: Rate,
    /// The peak rate over one second.
    pub max_1sec_rate: Rate,
    /// Where the window of that peak starts.
    pub max_1sec_time: i128,
    /// The peak rate over five seconds.
    pub max_5sec_rate: Rate,
    /// Where the window of that peak starts.
    pub max_5sec_time: i128,
    /// The peak rate over ten seconds.
    pub max_10sec_rate: Rate,
    /// Where the window of that peak starts.
    pub max_10sec_time: i128,
    /// The average frame over the frames that carry a tag.
    pub avg_frame_size: Share,
    /// The largest frame.
    pub max_frame_size: u64,
    /// Where the largest frame is.
    pub max_frame_time: i128,
}

impl Default for ChapterSummary {
    fn default() -> (r: Self)
        ensures
            r == row(no_tally(), 0, 0),
    {
        ChapterSummary {
            time_in: 0,
            length: 0,
            avg_rate: Rate { bytes: 0, ticks: 1 },
            max_1sec_rate: Rate { bytes: 0, ticks: 1 },
            max_1sec_time: 0,
            max_5sec_rate: Rate { bytes: 0, ticks: 1 },
            max_5sec_time: 0,
            max_10sec_rate: Rate { bytes: 0, ticks: 1 },
            max_10sec_time: 0,
            avg_frame_size: Share { bytes: 0, frames: 1 },
            max_frame_size: 0,
            max_frame_time: 0,
        }
    }
}

/// One clip for the walk.
#[derive(Debug, Clone, Copy)]
pub struct ChapterClip<'a> {
    /// The camera angle; only clips of the main one count.
    pub angle_index: i32,
    /// Where the clip starts within its stream file, which the windows' timestamps are
    /// relative to.
    pub time_in: i64,
    /// Where the clip starts on the playlist's timeline.
    pub relative_time_in: i64,
    /// The clip's video windows, where it was demultiplexed and has any.
    pub diagnostics: Option<&'a [TsStreamDiagnostics]>,
}

/// What a [`ChapterClip`] holds.
pub struct ChapterClipView {
    pub angle_index: i32,
    pub time_in: i64,
    pub relative_time_in: i64,
    pub diagnostics: Option<Seq<TsStreamDiagnostics>>,
}

impl<'a> View for ChapterClip<'a> {
    type V = ChapterClipView;

    open spec fn view(&self) -> ChapterClipView {
        ChapterClipView {
            angle_index: self.angle_index,
            time_in: self.time_in,
            relative_time_in: self.relative_time_in,
            diagnostics: match self.diagnostics {
                Some(list) => Some(list@),
                None => None,
            },
        }
    }
}

/// One frame in a sliding window: its bytes and its duration.
pub type Frame = (u64, i64);

/// The bytes of frames.
pub open spec fn bytes_of(frames: Seq<Frame>) -> int
    decreases frames.len(),
{
    if frames.len() == 0 {
        0
    } else {
        bytes_of(frames.drop_last()) + frames.last().0
    }
}

/// The duration of frames.
pub open spec fn ticks_of(frames: Seq<Frame>) -> int
    decreases frames.len(),
{
    if frames.len() == 0 {
        0
    } else {
        ticks_of(frames.drop_last()) + frames.last().1
    }
}

/// A sliding window: the frames in it, and the peak that it has recorded.
pub struct WindowView {
    /// What the frames' duration must exceed, ticks.
    pub span: i64,
    /// The frames, the oldest first.
    pub frames: Seq<Frame>,
    /// The peak rate.
    pub peak: Rate,
    /// Where the window of the peak starts.
    pub peak_time: i128,
}

/// A window before the first frame.
pub open spec fn empty_window(span: i64) -> WindowView {
    WindowView { span, frames: Seq::empty(), peak: no_rate(), peak_time: 0 }
}

/// A window after a frame at `position`.
pub open spec fn pushed(w: WindowView, frame: Frame, position: i128) -> WindowView {
    let frames = w.frames.push(frame);
    let ticks = ticks_of(frames);
    if ticks > w.span {
        let rate = Rate { bytes: bytes_of(frames) as u128, ticks: ticks as i128 };
        if rate.above(w.peak) && position - ticks > 0 {
            WindowView {
                frames: frames.drop_first(),
                peak: rate,
                peak_time: (position - ticks) as i128,
                ..w
            }
        } else {
            WindowView { frames: frames.drop_first(), ..w }
        }
    } else {
        WindowView { frames, ..w }
    }
}

/// Where the walk stands within a chapter.
pub struct Tally {
    /// The window over one second.
    pub one: WindowView,
    /// The window over five seconds.
    pub five: WindowView,
    /// The window over ten seconds.
    pub ten: WindowView,
    /// The chapter's bytes.
    pub bytes: u128,
    /// The chapter's tagged frames.
    pub frames: u64,
    /// The largest frame.
    pub max_size: u64,
    /// Where the largest frame is.
    pub max_time: i128,
}

/// The start of a chapter.
pub open spec fn no_tally() -> Tally {
    Tally {
        one: empty_window(90_000),
        five: empty_window(450_000),
        ten: empty_window(900_000),
        bytes: 0,
        frames: 0,
        max_size: 0,
        max_time: 0,
    }
}

/// The chapter after a frame at `position`.
pub open spec fn framed(t: Tally, diag: TsStreamDiagnostics, position: i128) -> Tally {
    let frame = (diag.bytes, diag.interval);
    Tally {
        one: pushed(t.one, frame, position),
        five: pushed(t.five, frame, position),
        ten: pushed(t.ten, frame, position),
        bytes: t.bytes.saturating_add(diag.bytes as u128),
        frames: if diag.tag is Some {
            t.frames.saturating_add(1)
        } else {
            t.frames
        },
        max_size: if diag.bytes > t.max_size {
            diag.bytes
        } else {
            t.max_size
        },
        max_time: if diag.bytes > t.max_size {
            position
        } else {
            t.max_time
        },
    }
}

/// Where a frame of a clip lies on the playlist's timeline.
pub open spec fn position_of(clip: ChapterClipView, diag: TsStreamDiagnostics) -> i128 {
    (diag.marker - clip.time_in + clip.relative_time_in) as i128
}

/// The chapter, the position and the next frame after the frames of a clip from the
/// `i`th on, up to the one that reaches `end`.
pub open spec fn frames_taken(
    t: Tally,
    position: i128,
    clip: ChapterClipView,
    diags: Seq<TsStreamDiagnostics>,
    i: int,
    end: i128,
) -> (Tally, i128, int)
    decreases diags.len() - i,
{
    if position >= end || i < 0 || i >= diags.len() {
        (t, position, i)
    } else if diags[i].marker < clip.time_in {
        frames_taken(t, position, clip, diags, i + 1, end)
    } else {
        let here = position_of(clip, diags[i]);
        frames_taken(framed(t, diags[i], here), here, clip, diags, i + 1, end)
    }
}

/// Where a chapter ends: at the next mark, or with the playlist.
pub open spec fn end_of(chapters: Seq<i64>, total_length: i128, chapter: int) -> i128 {
    if chapter + 1 < chapters.len() {
        chapters[chapter + 1] as i128
    } else {
        total_length
    }
}

/// The row of a chapter.
pub open spec fn row(t: Tally, start: i64, end: i128) -> ChapterSummary {
    let length = end.wrapping_sub(start as i128);
    ChapterSummary {
        time_in: start,
        length,
        avg_rate: if length > 0 && t.bytes > 0 {
            Rate { bytes: t.bytes, ticks: length }
        } else {
            no_rate()
        },
        max_1sec_rate: t.one.peak,
        max_1sec_time: t.one.peak_time,
        max_5sec_rate: t.five.peak,
        max_5sec_time: t.five.peak_time,
        max_10sec_rate: t.ten.peak,
        max_10sec_time: t.ten.peak_time,
        avg_frame_size: if t.frames > 0 {
            Share { bytes: t.bytes, frames: t.frames }
        } else {
            Share { bytes: 0, frames: 1 }
        },
        max_frame_size: t.max_size,
        max_frame_time: t.max_time,
    }
}

/// The windows of a clip that count.
pub open spec fn counted(clip: ChapterClipView) -> Option<Seq<TsStreamDiagnostics>> {
    if clip.angle_index == 0 {
        clip.diagnostics
    } else {
        None
    }
}

/// The rows of the chapters from the `chapter`th on, with the walk at the `frame`th frame
/// of the `clip`th clip.
pub open spec fn rows_from(
    t: Tally,
    position: i128,
    chapters: Seq<i64>,
    total_length: i128,
    clips: Seq<ChapterClipView>,
    chapter: int,
    clip: int,
    frame: int,
) -> Seq<ChapterSummary>
    decreases chapters.len() - chapter, clips.len() - clip,
{
    if chapter < 0 || chapter >= chapters.len() {
        Seq::empty()
    } else {
        let end = end_of(chapters, total_length, chapter);
        if clip < 0 || clip >= clips.len() {
            seq![row(t, chapters[chapter], end)] + rows_from(
                no_tally(),
                position,
                chapters,
                total_length,
                clips,
                chapter + 1,
                clip,
                frame,
            )
        } else {
            match counted(clips[clip]) {
                None => rows_from(
                    t,
                    position,
                    chapters,
                    total_length,
                    clips,
                    chapter,
                    clip + 1,
                    0,
                ),
                Some(diags) => {
                    let (t2, position2, frame2) = frames_taken(
                        t,
                        position,
                        clips[clip],
                        diags,
                        frame,
                        end,
                    );
                    if frame2 >= diags.len() {
                        rows_from(
                            t2,
                            position2,
                            chapters,
                            total_length,
                            clips,
                            chapter,
                            clip + 1,
                            0,
                        )
                    } else {
                        seq![row(t2, chapters[chapter], end)] + rows_from(
                            no_tally(),
                            position2,
                            chapters,
                            total_length,
                            clips,
                            chapter + 1,
                            clip,
                            frame2,
                        )
                    }
                },
            }
        }
    }
}

/// The rows of all the chapters.
pub open spec fn chapter_rows(
    chapters: Seq<i64>,
    total_length: i128,
    clips: Seq<ChapterClipView>,
) -> Seq<ChapterSummary> {
    rows_from(no_tally(), 0, chapters, total_length, clips, 0, 0, 0)
}

// ---- the code ----

/// Whether `a / b` is above `c / d`, found without a product: the whole parts decide, and
/// where they are equal the remainders do, turned over.
fn ratio_above(a: u128, b: u128, c: u128, d: u128) -> (r: bool)
    requires
        b > 0,
        d > 0,
    ensures
        r == (a * d > c * b),
    decreases b + d,
{
    let qa: u128 = a / b;
    let ra: u128 = a % b;
    let qc: u128 = c / d;
    let rc: u128 = c % d;
    proof {
        let (ai, bi, ci, di) = (a as int, b as int, c as int, d as int);
        let (qai, rai, qci, rci) = (qa as int, ra as int, qc as int, rc as int);
        assert(ai == qai * bi + rai && 0 <= rai < bi) by (nonlinear_arith)
            requires
                qai == ai / bi,
                rai == ai % bi,
                bi > 0,
        ;
        assert(ci == qci * di + rci && 0 <= rci < di) by (nonlinear_arith)
            requires
                qci == ci / di,
                rci == ci % di,
                di > 0,
        ;
        assert(ai * di == qai * (bi * di) + rai * di) by (nonlinear_arith)
            requires
                ai == qai * bi + rai,
        ;
        assert(ci * bi == qci * (bi * di) + rci * bi) by (nonlinear_arith)
            requires
                ci == qci * di + rci,
        ;
        assert(0 <= rai * di < bi * di) by (nonlinear_arith)
            requires
                0 <= rai < bi,
                di > 0,
        ;
        assert(0 <= rci * bi < bi * di) by (nonlinear_arith)
            requires
                0 <= rci < di,
                bi > 0,
        ;
        if qai > qci {
            assert(qai * (bi * di) >= qci * (bi * di) + bi * di) by (nonlinear_arith)
                requires
                    qai >= qci + 1,
                    bi * di > 0,
            ;
        } else if qai < qci {
            assert(qci * (bi * di) >= qai * (bi * di) + bi * di) by (nonlinear_arith)
                requires
                    qci >= qai + 1,
                    bi * di > 0,
            ;
        }
        assert(rai == 0 ==> rai * di == 0) by (nonlinear_arith);
        assert(rci == 0 ==> rci * bi == 0) by (nonlinear_arith);
        assert(rai > 0 ==> rai * di > 0) by (nonlinear_arith)
            requires
                di > 0,
        ;
        assert(di * rai == rai * di) by (nonlinear_arith);
        assert(bi * rci == rci * bi) by (nonlinear_arith);
    }
    if qa != qc {
        return qa > qc;
    }
    if ra == 0 {
        return false;
    }
    if rc == 0 {
        return true;
    }
    ratio_above(d, rc, b, ra)
}

proof fn lemma_pushed_sums(frames: Seq<Frame>, f: Frame)
    ensures
        bytes_of(frames.push(f)) == bytes_of(frames) + f.0,
        ticks_of(frames.push(f)) == ticks_of(frames) + f.1,
{
    assert(frames.push(f).drop_last() =~= frames);
}

proof fn lemma_popped_sums(frames: Seq<Frame>)
    requires
        frames.len() > 0,
    ensures
        bytes_of(frames.drop_first()) == bytes_of(frames) - frames[0].0,
        ticks_of(frames.drop_first()) == ticks_of(frames) - frames[0].1,
    decreases frames.len(),
{
    let rest = frames.drop_first();
    if frames.len() == 1 {
        assert(rest =~= Seq::<Frame>::empty());
        assert(frames.drop_last() =~= Seq::<Frame>::empty());
    } else {
        lemma_popped_sums(frames.drop_last());
        assert(rest.drop_last() =~= frames.drop_last().drop_first());
        assert(rest.last() == frames.last());
    }
}

proof fn lemma_sum_bounds(frames: Seq<Frame>)
    ensures
        0 <= bytes_of(frames) <= frames.len() * u64::MAX,
        -(frames.len() * 0x8000_0000_0000_0000) <= ticks_of(frames) <= frames.len()
            * 0x8000_0000_0000_0000,
    decreases frames.len(),
{
    if frames.len() > 0 {
        lemma_sum_bounds(frames.drop_last());
    }
}

/// A sliding window with the sums of what is in it.
struct Window {
    span: i64,
    frames: VecDeque<Frame>,
    bytes_sum: u128,
    ticks_sum: i128,
    peak: Rate,
    peak_time: i128,
}

impl View for Window {
    type V = WindowView;

    closed spec fn view(&self) -> WindowView {
        WindowView {
            span: self.span,
            frames: self.frames@,
            peak: self.peak,
            peak_time: self.peak_time,
        }
    }
}

impl Window {
    spec fn wf(self) -> bool {
        &&& self.span >= 0
        &&& self.bytes_sum as int == bytes_of(self.frames@)
        &&& self.ticks_sum as int == ticks_of(self.frames@)
        &&& self.peak.ticks > 0
    }

    /// An empty window over `span` ticks.
    fn new(span: i64) -> (r: Self)
        requires
            span >= 0,
        ensures
            r.wf(),
            r@ == empty_window(span),
    {
        Window {
            span,
            frames: VecDeque::new(),
            bytes_sum: 0,
            ticks_sum: 0,
            peak: Rate { bytes: 0, ticks: 1 },
            peak_time: 0,
        }
    }

    /// Takes a frame at `position` in.
    fn push(&mut self, bytes: u64, ticks: i64, position: i128)
        requires
            old(self).wf(),
            -0x1_0000_0000_0000_0000_0000 <= position <= 0x1_0000_0000_0000_0000_0000,
        ensures
            final(self).wf(),
            final(self)@ == pushed(old(self)@, (bytes, ticks), position),
    {
        let ghost was = self.frames@;
        self.frames.push_back((bytes, ticks));
        let n: usize = self.frames.len();
        proof {
            lemma_pushed_sums(was, (bytes, ticks));
            lemma_sum_bounds(was);
            lemma_sum_bounds(self.frames@);
            assert(self.frames@.len() == n);
            assert(self.frames@.len() * u64::MAX <= u128::MAX);
            assert(self.frames@.len() * 0x8000_0000_0000_0000 <= i128::MAX);
        }
        self.bytes_sum = self.bytes_sum + bytes as u128;
        self.ticks_sum = self.ticks_sum + ticks as i128;
        if self.ticks_sum > self.span as i128 {
            if ratio_above(
                self.bytes_sum,
                self.ticks_sum as u128,
                self.peak.bytes,
                self.peak.ticks as u128,
            ) && position > self.ticks_sum {
                self.peak = Rate { bytes: self.bytes_sum, ticks: self.ticks_sum };
                self.peak_time = position - self.ticks_sum;
            }
            proof {
                lemma_popped_sums(self.frames@);
                lemma_sum_bounds(self.frames@.drop_first());
            }
            let ghost full = self.frames@;
            if let Some(oldest) = self.frames.pop_front() {
                self.bytes_sum = self.bytes_sum - oldest.0 as u128;
                self.ticks_sum = self.ticks_sum - oldest.1 as i128;
            }
            proof {
                assert(self.frames@ =~= full.drop_first());
            }
        }
    }
}

/// What a chapter has gathered.
struct Gathered {
    one: Window,
    five: Window,
    ten: Window,
    bytes: u128,
    frames: u64,
    max_size: u64,
    max_time: i128,
}

impl View for Gathered {
    type V = Tally;

    closed spec fn view(&self) -> Tally {
        Tally {
            one: self.one@,
            five: self.five@,
            ten: self.ten@,
            bytes: self.bytes,
            frames: self.frames,
            max_size: self.max_size,
            max_time: self.max_time,
        }
    }
}

impl Gathered {
    spec fn wf(self) -> bool {
        self.one.wf() && self.five.wf() && self.ten.wf()
    }

    /// The start of a chapter.
    fn new() -> (r: Self)
        ensures
            r.wf(),
            r@ == no_tally(),
    {
        Gathered {
            one: Window::new(90_000),
            five: Window::new(450_000),
            ten: Window::new(900_000),
            bytes: 0,
            frames: 0,
            max_size: 0,
            max_time: 0,
        }
    }

    /// Takes a frame at `position` in.
    fn take(&mut self, diag: &TsStreamDiagnostics, position: i128)
        requires
            old(self).wf(),
            -0x1_0000_0000_0000_0000_0000 <= position <= 0x1_0000_0000_0000_0000_0000,
        ensures
            final(self).wf(),
            final(self)@ == framed(old(self)@, *diag, position),
    {
        self.bytes = self.bytes.saturating_add(diag.bytes as u128);
        if diag.tag.is_some() {
            self.frames = self.frames.saturating_add(1);
        }
        self.one.push(diag.bytes, diag.interval, position);
        self.five.push(diag.bytes, diag.interval, position);
        self.ten.push(diag.bytes, diag.interval, position);
        if diag.bytes > self.max_size {
            self.max_size = diag.bytes;
            self.max_time = position;
        }
    }

    /// The chapter's row.
    fn to_row(&self, start: i64, end: i128) -> (r: ChapterSummary)
        ensures
            r == row(self@, start, end),
    {
        let length: i128 = end.wrapping_sub(start as i128);
        ChapterSummary {
            time_in: start,
            length,
            avg_rate: if length > 0 && self.bytes > 0 {
                Rate { bytes: self.bytes, ticks: length }
            } else {
                Rate { bytes: 0, ticks: 1 }
            },
            max_1sec_rate: self.one.peak,
            max_1sec_time: self.one.peak_time,
            max_5sec_rate: self.five.peak,
            max_5sec_time: self.five.peak_time,
            max_10sec_rate: self.ten.peak,
            max_10sec_time: self.ten.peak_time,
            avg_frame_size: if self.frames > 0 {
                Share { bytes: self.bytes, frames: self.frames }
            } else {
                Share { bytes: 0, frames: 1 }
            },
            max_frame_size: self.max_size,
            max_frame_time: self.max_time,
        }
    }
}

/// Takes the frames of a clip from the `from`th on in, up to the one that reaches `end`,
/// and returns the index of the next frame.
fn take_frames(
    gathered: &mut Gathered,
    position: &mut i128,
    clip: &ChapterClip<'_>,
    diags: &[TsStreamDiagnostics],
    from: usize,
    end: i128,
) -> (next: usize)
    requires
        old(gathered).wf(),
        from <= diags@.len(),
    ensures
        final(gathered).wf(),
        next <= diags@.len(),
        (final(gathered)@, *final(position), next as int) == frames_taken(
            old(gathered)@,
            *old(position),
            clip@,
            diags@,
            from as int,
            end,
        ),
{
    let ghost whole = frames_taken(gathered@, *position, clip@, diags@, from as int, end);
    let mut i: usize = from;
    while *position < end && i < diags.len()
        invariant
            gathered.wf(),
            i <= diags@.len(),
            frames_taken(gathered@, *position, clip@, diags@, i as int, end) == whole,
        decreases diags@.len() - i,
    {
        if diags[i].marker >= clip.time_in {
            *position = diags[i].marker as i128 - clip.time_in as i128
                + clip.relative_time_in as i128;
            gathered.take(&diags[i], *position);
        }
        i = i + 1;
    }
    i
}

/// The views of a clip list.
pub open spec fn chapter_clip_views<'a>(clips: Seq<ChapterClip<'a>>) -> Seq<ChapterClipView> {
    clips.map_values(|c: ChapterClip<'a>| c@)
}

/// Walks `clips` against the `chapters` marks, the last of which ends at `total_length`,
/// and gives one row per mark.
pub fn walk_chapters(chapters: &[i64], total_length: i128, clips: &[ChapterClip<'_>]) -> (r: Vec<
    ChapterSummary,
>)
    ensures
        r@ == chapter_rows(chapters@, total_length, chapter_clip_views(clips@)),
{
    let ghost views = chapter_clip_views(clips@);
    let ghost whole = chapter_rows(chapters@, total_length, views);
    let mut rows: Vec<ChapterSummary> = Vec::new();
    let mut gathered = Gathered::new();
    let mut position: i128 = 0;
    let mut chapter: usize = 0;
    let mut clip: usize = 0;
    let mut frame: usize = 0;
    proof {
        assert(rows@ + whole =~= whole);
    }
    while chapter < chapters.len()
        invariant
            gathered.wf(),
            chapter <= chapters@.len(),
            clip <= clips@.len(),
            views == chapter_clip_views(clips@),
            clip < clips@.len() ==> match counted(views[clip as int]) {
                Some(diags) => frame <= diags.len(),
                None => true,
            },
            rows@ + rows_from(
                gathered@,
                position,
                chapters@,
                total_length,
                views,
                chapter as int,
                clip as int,
                frame as int,
            ) == whole,
        decreases chapters@.len() - chapter, clips@.len() - clip,
    {
        let end: i128 = if chapter + 1 < chapters.len() {
            chapters[chapter + 1] as i128
        } else {
            total_length
        };
        let mut exhausted = false;
        if clip < clips.len() {
            let c = &clips[clip];
            assert(views[clip as int] == c@);
            let list = if c.angle_index == 0 {
                c.diagnostics
            } else {
                None
            };
            match list {
                Some(diags) => {
                    frame = take_frames(&mut gathered, &mut position, c, diags, frame, end);
                    exhausted = frame >= diags.len();
                },
                None => {
                    exhausted = true;
                },
            }
        }
        if exhausted {
            clip = clip + 1;
            frame = 0;
        } else {
            let ghost before = rows@;
            let done = gathered.to_row(chapters[chapter], end);
            rows.push(done);
            gathered = Gathered::new();
            chapter = chapter + 1;
            proof {
                let rest = rows_from(
                    gathered@,
                    position,
                    chapters@,
                    total_length,
                    views,
                    chapter as int,
                    clip as int,
                    frame as int,
                );
                assert(rows@ + rest =~= before + (seq![done] + rest));
            }
        }
    }
    proof {
        assert(rows@ + Seq::<ChapterSummary>::empty() =~= rows@);
    }
    rows
}

// ---- what holds of every walk ----

proof fn lemma_rows_from(
    t: Tally,
    position: i128,
    chapters: Seq<i64>,
    total_length: i128,
    clips: Seq<ChapterClipView>,
    chapter: int,
    clip: int,
    frame: int,
)
    requires
        0 <= chapter <= chapters.len(),
    ensures
        ({
            let rows = rows_from(
                t,
                position,
                chapters,
                total_length,
                clips,
                chapter,
                clip,
                frame,
            );
            &&& rows.len() == chapters.len() - chapter
            &&& forall|i: int|
                #![trigger rows[i]]
                0 <= i < rows.len() ==> {
                    &&& rows[i].time_in == chapters[chapter + i]
                    &&& rows[i].length == end_of(
                        chapters,
                        total_length,
                        chapter + i,
                    ).wrapping_sub(chapters[chapter + i] as i128)
                }
        }),
    decreases chapters.len() - chapter, clips.len() - clip,
{
    if chapter < chapters.len() {
        let end = end_of(chapters, total_length, chapter);
        let rows = rows_from(t, position, chapters, total_length, clips, chapter, clip, frame);
        if clip < 0 || clip >= clips.len() {
            lemma_rows_from(
                no_tally(),
                position,
                chapters,
                total_length,
                clips,
                chapter + 1,
                clip,
                frame,
            );
            let rest = rows_from(
                no_tally(),
                position,
                chapters,
                total_length,
                clips,
                chapter + 1,
                clip,
                frame,
            );
            assert forall|i: int| #![trigger rows[i]] 0 <= i < rows.len() implies {
                &&& rows[i].time_in == chapters[chapter + i]
                &&& rows[i].length == end_of(
                    chapters,
                    total_length,
                    chapter + i,
                ).wrapping_sub(chapters[chapter + i] as i128)
            } by {
                if i > 0 {
                    assert(rows[i] == rest[i - 1]);
                }
            }
        } else {
            match counted(clips[clip]) {
                None => {
                    lemma_rows_from(
                        t,
                        position,
                        chapters,
                        total_length,
                        clips,
                        chapter,
                        clip + 1,
                        0,
                    );
                },
                Some(diags) => {
                    let (t2, position2, frame2) = frames_taken(
                        t,
                        position,
                        clips[clip],
                        diags,
                        frame,
                        end,
                    );
                    if frame2 >= diags.len() {
                        lemma_rows_from(
                            t2,
                            position2,
                            chapters,
                            total_length,
                            clips,
                            chapter,
                            clip + 1,
                            0,
                        );
                    } else {
                        lemma_rows_from(
                            no_tally(),
                            position2,
                            chapters,
                            total_length,
                            clips,
                            chapter + 1,
                            clip,
                            frame2,
                        );
                        let rest = rows_from(
                            no_tally(),
                            position2,
                            chapters,
                            total_length,
                            clips,
                            chapter + 1,
                            clip,
                            frame2,
                        );
                        assert forall|i: int| #![trigger rows[i]] 0 <= i < rows.len() implies {
                            &&& rows[i].time_in == chapters[chapter + i]
                            &&& rows[i].length == end_of(
                                chapters,
                                total_length,
                                chapter + i,
                            ).wrapping_sub(chapters[chapter + i] as i128)
                        } by {
                            if i > 0 {
                                assert(rows[i] == rest[i - 1]);
                            }
                        }
                    }
                },
            }
        }
    }
}

/// The walk gives exactly one row per chapter mark, each with its mark's time and the
/// length up to the next mark, whatever was measured.
pub proof fn lemma_one_row_per_chapter(
    chapters: Seq<i64>,
    total_length: i128,
    clips: Seq<ChapterClipView>,
)
    ensures
        chapter_rows(chapters, total_length, clips).len() == chapters.len(),
        forall|i: int|
            #![trigger chapter_rows(chapters, total_length, clips)[i]]
            0 <= i < chapters.len() ==> {
                &&& chapter_rows(chapters, total_length, clips)[i].time_in == chapters[i]
                &&& chapter_rows(chapters, total_length, clips)[i].length == end_of(
                    chapters,
                    total_length,
                    i,
                ).wrapping_sub(chapters[i] as i128)
            },
{
    lemma_rows_from(no_tally(), 0, chapters, total_length, clips, 0, 0, 0);
}

} // verus!
