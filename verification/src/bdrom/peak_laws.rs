//! What a chapter's row says of the frames that are played in it.

use vstd::prelude::*;

use super::chapter_laws::{counted_frames, lemma_rows_over_the_frames, rows_over, taken, Placed};
use super::chapters::{
    bytes_of, chapter_rows, end_of, framed, no_tally, pushed, row, ticks_of, ChapterClipView,
    ChapterSummary, Frame, Rate, Tally, WindowView,
};
use crate::sums::sum;

verus! {

// ---- runs of frames ----

/// The bytes of the frames from the `i`th on, before the `j`th.
pub open spec fn run_bytes(frames: Seq<Placed>, i: int, j: int) -> int {
    sum(frames.subrange(i, j).map_values(|f: Placed| f.1.bytes as int))
}

/// The duration of the frames from the `i`th on, before the `j`th.
pub open spec fn run_ticks(frames: Seq<Placed>, i: int, j: int) -> int {
    sum(frames.subrange(i, j).map_values(|f: Placed| f.1.interval as int))
}

/// The oldest frame that a window over `span` still holds when the `j`th frame comes: one
/// frame leaves with every frame that makes the window longer than the span.
pub open spec fn oldest(frames: Seq<Placed>, span: int, j: int) -> int
    decreases j,
{
    if j <= 0 {
        0
    } else {
        let i = oldest(frames, span, j - 1);
        if run_ticks(frames, i, j) > span {
            i + 1
        } else {
            i
        }
    }
}

/// Whether the run that a window over `span` holds with the `j`th frame may be a peak: it is
/// longer than the span, and it starts behind the start of the playlist.
pub open spec fn may_peak(frames: Seq<Placed>, span: int, j: int) -> bool {
    let ticks = run_ticks(frames, oldest(frames, span, j), j + 1);
    0 <= j < frames.len() && ticks > span && frames[j].0 - ticks > 0
}

/// Whether a rate at a time is the peak over `span`: no run that may be a peak has more
/// bytes over its duration; and it is the rate of such a run, at the run's start, or nothing
/// where no such run has any bytes.
pub open spec fn is_peak(frames: Seq<Placed>, span: int, peak: Rate, time: i128) -> bool {
    &&& forall|j: int| #[trigger]
        may_peak(frames, span, j) ==> run_bytes(frames, oldest(frames, span, j), j + 1)
            * peak.ticks <= peak.bytes * run_ticks(frames, oldest(frames, span, j), j + 1)
    &&& (peak.bytes == 0 && peak.ticks == 1 && time == 0) || exists|j: int|
        {
            &&& #[trigger] may_peak(frames, span, j)
            &&& peak.bytes == run_bytes(frames, oldest(frames, span, j), j + 1)
            &&& peak.ticks == run_ticks(frames, oldest(frames, span, j), j + 1)
            &&& time == frames[j].0 - peak.ticks
        }
}

// ---- the windows ----

/// A window after frames.
spec fn window_after(span: i64, frames: Seq<Placed>) -> WindowView
    decreases frames.len(),
{
    if frames.len() == 0 {
        super::chapters::empty_window(span)
    } else {
        let f = frames.last();
        pushed(window_after(span, frames.drop_last()), (f.1.bytes, f.1.interval), f.0)
    }
}

/// What a window holds of a run.
spec fn held(frames: Seq<Placed>, i: int, j: int) -> Seq<Frame> {
    frames.subrange(i, j).map_values(|f: Placed| (f.1.bytes, f.1.interval))
}

proof fn lemma_held_sums(frames: Seq<Placed>, i: int, j: int)
    requires
        0 <= i <= j <= frames.len(),
    ensures
        bytes_of(held(frames, i, j)) == run_bytes(frames, i, j),
        ticks_of(held(frames, i, j)) == run_ticks(frames, i, j),
        0 <= run_bytes(frames, i, j) <= (j - i) * u64::MAX,
        -((j - i) * 0x8000_0000_0000_0000) <= run_ticks(frames, i, j) <= (j - i)
            * 0x8000_0000_0000_0000,
    decreases j - i,
{
    let run = frames.subrange(i, j);
    let bytes = run.map_values(|f: Placed| f.1.bytes as int);
    let ticks = run.map_values(|f: Placed| f.1.interval as int);
    if i < j {
        lemma_held_sums(frames, i, j - 1);
        let less = frames.subrange(i, j - 1);
        assert(run.drop_last() =~= less);
        assert(held(frames, i, j).drop_last() =~= held(frames, i, j - 1));
        assert(bytes.drop_last() =~= less.map_values(|f: Placed| f.1.bytes as int));
        assert(ticks.drop_last() =~= less.map_values(|f: Placed| f.1.interval as int));
    } else {
        assert(bytes =~= Seq::empty());
        assert(ticks =~= Seq::empty());
        assert(held(frames, i, j) =~= Seq::empty());
    }
}

proof fn lemma_oldest(frames: Seq<Placed>, span: int, j: int)
    requires
        span >= 0,
        0 <= j <= frames.len(),
    ensures
        0 <= oldest(frames, span, j) <= j,
    decreases j,
{
    if j > 0 {
        lemma_oldest(frames, span, j - 1);
    }
}

/// What a run is does not rest on the frames behind it.
proof fn lemma_runs_of_prefix(frames: Seq<Placed>, span: int, j: int)
    requires
        span >= 0,
        frames.len() > 0,
        0 <= j < frames.len(),
    ensures
        oldest(frames.drop_last(), span, j) == oldest(frames, span, j),
        forall|a: int, b: int|
            0 <= a <= b <= j ==> #[trigger] run_ticks(frames.drop_last(), a, b) == run_ticks(
                frames,
                a,
                b,
            ),
        forall|a: int, b: int|
            0 <= a <= b <= j ==> #[trigger] run_bytes(frames.drop_last(), a, b) == run_bytes(
                frames,
                a,
                b,
            ),
    decreases j,
{
    let less = frames.drop_last();
    assert forall|a: int, b: int| 0 <= a <= b <= j implies #[trigger] run_ticks(less, a, b)
        == run_ticks(frames, a, b) by {
        assert(less.subrange(a, b) =~= frames.subrange(a, b));
    }
    assert forall|a: int, b: int| 0 <= a <= b <= j implies #[trigger] run_bytes(less, a, b)
        == run_bytes(frames, a, b) by {
        assert(less.subrange(a, b) =~= frames.subrange(a, b));
    }
    if j > 0 {
        lemma_runs_of_prefix(frames, span, j - 1);
        lemma_oldest(frames, span, j - 1);
    }
}

#[verifier::rlimit(50)]
proof fn lemma_window(span: i64, frames: Seq<Placed>)
    requires
        span >= 0,
        frames.len() <= u64::MAX,
    ensures
        ({
            let w = window_after(span, frames);
            let n = frames.len() as int;
            &&& w.span == span
            &&& w.peak.ticks > 0
            &&& w.frames == held(frames, oldest(frames, span as int, n), n)
            &&& is_peak(frames, span as int, w.peak, w.peak_time)
        }),
    decreases frames.len(),
{
    let n = frames.len() as int;
    let s = span as int;
    let w = window_after(span, frames);
    lemma_oldest(frames, s, n);
    if n == 0 {
        assert(w.frames =~= held(frames, 0, 0));
    } else {
        let less = frames.drop_last();
        lemma_window(span, less);
        lemma_oldest(frames, s, n - 1);
        lemma_runs_of_prefix(frames, s, n - 1);
        let v = window_after(span, less);
        let i = oldest(frames, s, n - 1);
        assert(less.subrange(i, n - 1) =~= frames.subrange(i, n - 1));
        assert(v.frames == held(frames, i, n - 1));
        let f = frames.last();
        let run = held(frames, i, n);
        assert(v.frames.push((f.1.bytes, f.1.interval)) =~= run);
        lemma_held_sums(frames, i, n);
        let ticks = run_ticks(frames, i, n);
        let bytes = run_bytes(frames, i, n);
        assert((n - i) * u64::MAX <= u128::MAX) by (nonlinear_arith)
            requires
                0 <= n - i <= u64::MAX,
        ;
        assert((n - i) * 0x8000_0000_0000_0000 <= i128::MAX) by (nonlinear_arith)
            requires
                0 <= n - i <= u64::MAX,
        ;
        // What may be a peak among the frames before still may, and the last frame's run may.
        assert forall|j: int| #[trigger] may_peak(frames, s, j) implies j == n - 1 || (may_peak(
            less,
            s,
            j,
        ) && oldest(less, s, j) == oldest(frames, s, j) && run_bytes(
            less,
            oldest(less, s, j),
            j + 1,
        ) == run_bytes(frames, oldest(frames, s, j), j + 1) && run_ticks(
            less,
            oldest(less, s, j),
            j + 1,
        ) == run_ticks(frames, oldest(frames, s, j), j + 1)) by {
            if j < n - 1 {
                lemma_runs_of_prefix(frames, s, j);
                lemma_oldest(frames, s, j);
                assert(less[j] == frames[j]);
                assert(run_ticks(less, oldest(less, s, j), j + 1) == run_ticks(
                    frames,
                    oldest(frames, s, j),
                    j + 1,
                ));
                assert(run_bytes(less, oldest(less, s, j), j + 1) == run_bytes(
                    frames,
                    oldest(frames, s, j),
                    j + 1,
                ));
            }
        }
        assert forall|j: int| #[trigger] may_peak(less, s, j) implies may_peak(frames, s, j)
            && run_bytes(less, oldest(less, s, j), j + 1) == run_bytes(
            frames,
            oldest(frames, s, j),
            j + 1,
        ) && run_ticks(less, oldest(less, s, j), j + 1) == run_ticks(
            frames,
            oldest(frames, s, j),
            j + 1,
        ) && less[j] == frames[j] by {
            lemma_runs_of_prefix(frames, s, j);
            lemma_oldest(frames, s, j);
            assert(less[j] == frames[j]);
            assert(run_ticks(less, oldest(less, s, j), j + 1) == run_ticks(
                frames,
                oldest(frames, s, j),
                j + 1,
            ));
            assert(run_bytes(less, oldest(less, s, j), j + 1) == run_bytes(
                frames,
                oldest(frames, s, j),
                j + 1,
            ));
        }
        if ticks > s {
            assert(run.drop_first() =~= held(frames, i + 1, n));
            let new_peak = bytes * v.peak.ticks > v.peak.bytes * ticks && f.0 - ticks > 0;
            if new_peak {
                assert(may_peak(frames, s, n - 1));
                assert(w.peak.bytes == bytes && w.peak.ticks == ticks);
                assert forall|j: int| #[trigger] may_peak(frames, s, j) implies run_bytes(
                    frames,
                    oldest(frames, s, j),
                    j + 1,
                ) * w.peak.ticks <= w.peak.bytes * run_ticks(
                    frames,
                    oldest(frames, s, j),
                    j + 1,
                ) by {
                    if j < n - 1 {
                        let b = run_bytes(frames, oldest(frames, s, j), j + 1);
                        let t = run_ticks(frames, oldest(frames, s, j), j + 1);
                        let pb = v.peak.bytes as int;
                        let pt = v.peak.ticks as int;
                        assert(may_peak(less, s, j));
                        assert(b * ticks <= bytes * t) by (nonlinear_arith)
                            requires
                                b * pt <= pb * t,
                                bytes * pt > pb * ticks,
                                pt > 0,
                                t > 0,
                                ticks > 0,
                        {
                            assert(b * pt * ticks <= pb * t * ticks);
                            assert(pb * ticks * t < bytes * pt * t);
                            assert(b * ticks * pt < bytes * t * pt);
                        }
                    }
                }
            } else {
                assert(w.peak == v.peak && w.peak_time == v.peak_time);
            }
        }
    }
}

// ---- a chapter ----

/// A tally after frames.
spec fn tally_after(frames: Seq<Placed>) -> Tally
    decreases frames.len(),
{
    if frames.len() == 0 {
        no_tally()
    } else {
        framed(tally_after(frames.drop_last()), frames.last().1, frames.last().0)
    }
}

/// A tally after more frames.
spec fn tally_from(t: Tally, frames: Seq<Placed>) -> Tally
    decreases frames.len(),
{
    if frames.len() == 0 {
        t
    } else {
        framed(tally_from(t, frames.drop_last()), frames.last().1, frames.last().0)
    }
}

proof fn lemma_tally_from_first(t: Tally, frames: Seq<Placed>)
    requires
        frames.len() > 0,
    ensures
        tally_from(t, frames) == tally_from(
            framed(t, frames[0].1, frames[0].0),
            frames.drop_first(),
        ),
    decreases frames.len(),
{
    if frames.len() == 1 {
        assert(frames.drop_last() =~= Seq::<Placed>::empty());
        assert(frames.drop_first() =~= Seq::<Placed>::empty());
        assert(tally_from(t, frames.drop_last()) == t);
    } else {
        lemma_tally_from_first(t, frames.drop_last());
        assert(frames.drop_first().drop_last() =~= frames.drop_last().drop_first());
        assert(frames.drop_first().last() == frames.last());
    }
}

proof fn lemma_tally_from_nothing(frames: Seq<Placed>)
    ensures
        tally_from(no_tally(), frames) == tally_after(frames),
    decreases frames.len(),
{
    if frames.len() > 0 {
        lemma_tally_from_nothing(frames.drop_last());
    }
}

/// How many of the frames carry a tag.
pub open spec fn tagged(frames: Seq<Placed>) -> int {
    sum(
        frames.map_values(
            |f: Placed|
                if f.1.tag is Some {
                    1int
                } else {
                    0int
                },
        ),
    )
}

/// Whether a size at a time is that of the largest frame, the first where there are several;
/// where no frame has any bytes, it is nothing.
pub open spec fn is_largest(frames: Seq<Placed>, size: u64, time: i128) -> bool {
    &&& forall|j: int| 0 <= j < frames.len() ==> (#[trigger] frames[j]).1.bytes <= size
    &&& (size == 0 && time == 0) || exists|j: int|
        {
            &&& 0 <= j < frames.len()
            &&& (#[trigger] frames[j]).1.bytes == size
            &&& frames[j].0 == time
            &&& forall|k: int| 0 <= k < j ==> (#[trigger] frames[k]).1.bytes < size
        }
}

#[verifier::rlimit(50)]
proof fn lemma_tally(frames: Seq<Placed>)
    requires
        frames.len() <= u64::MAX,
    ensures
        ({
            let t = tally_after(frames);
            &&& t.one == window_after(90_000, frames)
            &&& t.five == window_after(450_000, frames)
            &&& t.ten == window_after(900_000, frames)
            &&& t.bytes == run_bytes(frames, 0, frames.len() as int)
            &&& t.frames == tagged(frames)
            &&& 0 <= tagged(frames) <= frames.len()
            &&& is_largest(frames, t.max_size, t.max_time)
        }),
    decreases frames.len(),
{
    let n = frames.len() as int;
    let t = tally_after(frames);
    let whole = frames.subrange(0, n);
    assert(whole =~= frames);
    let bytes = frames.map_values(|f: Placed| f.1.bytes as int);
    let tags = frames.map_values(
        |f: Placed|
            if f.1.tag is Some {
                1int
            } else {
                0int
            },
    );
    lemma_held_sums(frames, 0, n);
    if n == 0 {
        assert(bytes =~= Seq::empty());
        assert(tags =~= Seq::empty());
    } else {
        let less = frames.drop_last();
        lemma_tally(less);
        assert(less.subrange(0, n - 1) =~= less);
        assert(bytes.drop_last() =~= less.map_values(|f: Placed| f.1.bytes as int));
        assert(tags.drop_last() =~= less.map_values(
            |f: Placed|
                if f.1.tag is Some {
                    1int
                } else {
                    0int
                },
        ));
        assert(n * u64::MAX <= u128::MAX) by (nonlinear_arith)
            requires
                0 <= n <= u64::MAX,
        ;
        let s = tally_after(less);
        assert forall|j: int| 0 <= j < n implies (#[trigger] frames[j]).1.bytes <= t.max_size by {
            if j < n - 1 {
                assert(less[j] == frames[j]);
            }
        }
        if frames.last().1.bytes > s.max_size {
            assert forall|k: int| 0 <= k < n - 1 implies (#[trigger] frames[k]).1.bytes
                < t.max_size by {
                assert(less[k] == frames[k]);
            }
            assert(frames[n - 1].1.bytes == t.max_size);
        } else if !(s.max_size == 0 && s.max_time == 0) {
            let j = choose|j: int|
                {
                    &&& 0 <= j < less.len()
                    &&& (#[trigger] less[j]).1.bytes == s.max_size
                    &&& less[j].0 == s.max_time
                    &&& forall|k: int| 0 <= k < j ==> (#[trigger] less[k]).1.bytes < s.max_size
                };
            assert(frames[j] == less[j]);
            assert forall|k: int| 0 <= k < j implies (#[trigger] frames[k]).1.bytes
                < t.max_size by {
                assert(less[k] == frames[k]);
            }
        }
    }
}

/// Whether a row says what there is to say of the frames of a chapter from `start` to `end`:
/// the average over its length of all their bytes, the peaks over one, five and ten seconds,
/// the average over the tagged frames, and the largest frame.
pub open spec fn row_says(r: ChapterSummary, frames: Seq<Placed>, start: i64, end: i128) -> bool {
    let bytes = run_bytes(frames, 0, frames.len() as int);
    &&& r.time_in == start
    &&& i128::MIN <= end - start <= i128::MAX ==> r.length == end - start
    &&& r.length > 0 && bytes > 0 ==> r.avg_rate.bytes == bytes && r.avg_rate.ticks == r.length
    &&& !(r.length > 0 && bytes > 0) ==> r.avg_rate.bytes == 0 && r.avg_rate.ticks == 1
    &&& is_peak(frames, 90_000, r.max_1sec_rate, r.max_1sec_time)
    &&& is_peak(frames, 450_000, r.max_5sec_rate, r.max_5sec_time)
    &&& is_peak(frames, 900_000, r.max_10sec_rate, r.max_10sec_time)
    &&& tagged(frames) > 0 ==> r.avg_frame_size.bytes == bytes && r.avg_frame_size.frames
        == tagged(frames)
    &&& tagged(frames) == 0 ==> r.avg_frame_size.bytes == 0 && r.avg_frame_size.frames == 1
    &&& is_largest(frames, r.max_frame_size, r.max_frame_time)
}

#[verifier::rlimit(50)]
proof fn lemma_row_says(frames: Seq<Placed>, start: i64, end: i128)
    requires
        frames.len() <= u64::MAX,
    ensures
        row_says(row(tally_after(frames), start, end), frames, start, end),
{
    lemma_tally(frames);
    lemma_window(90_000, frames);
    lemma_window(450_000, frames);
    lemma_window(900_000, frames);
}

/// Whether the frames of a chapter that ends at `end` are those from the `from`th on, before
/// the `to`th: up to the first that reaches the end, and all that are left where none does.
/// Where the frame before them has reached the end already, there are none.
pub open spec fn is_chapter(frames: Seq<Placed>, from: int, to: int, end: i128) -> bool {
    let reached = |k: int|
        (if k <= 0 {
            0i128
        } else {
            frames[k - 1].0
        }) >= end;
    &&& 0 <= from <= to <= frames.len()
    &&& forall|k: int| from <= k < to ==> !#[trigger] reached(k)
    &&& to == frames.len() || reached(to)
}

/// How many frames a chapter takes.
spec fn chapter_len(position: i128, frames: Seq<Placed>, end: i128) -> int
    decreases frames.len(),
{
    if position >= end || frames.len() == 0 {
        0
    } else {
        1 + chapter_len(frames[0].0, frames.drop_first(), end)
    }
}

proof fn lemma_taken(t: Tally, position: i128, frames: Seq<Placed>, end: i128)
    ensures
        ({
            let n = chapter_len(position, frames, end);
            &&& 0 <= n <= frames.len()
            &&& taken(t, position, frames, end) == (
                tally_from(t, frames.subrange(0, n)),
                if n == 0 {
                    position
                } else {
                    frames[n - 1].0
                },
                frames.subrange(n, frames.len() as int),
            )
            &&& n > 0 ==> position < end
            &&& forall|k: int| 0 < k < n ==> (#[trigger] frames[k - 1]).0 < end
            &&& n < frames.len() ==> (if n == 0 {
                position
            } else {
                frames[n - 1].0
            }) >= end
        }),
    decreases frames.len(),
{
    let n = chapter_len(position, frames, end);
    if position >= end || frames.len() == 0 {
        assert(frames.subrange(0, 0) =~= Seq::<Placed>::empty());
        assert(frames.subrange(0, frames.len() as int) =~= frames);
    } else {
        let rest = frames.drop_first();
        lemma_taken(framed(t, frames[0].1, frames[0].0), frames[0].0, rest, end);
        let head = frames.subrange(0, n);
        lemma_tally_from_first(t, head);
        assert(head.drop_first() =~= rest.subrange(0, n - 1));
        assert(frames.subrange(n, frames.len() as int) =~= rest.subrange(
            n - 1,
            rest.len() as int,
        ));
        assert forall|k: int| 0 < k < n implies (#[trigger] frames[k - 1]).0 < end by {
            if k > 1 {
                assert(rest[k - 2] == frames[k - 1]);
                assert((rest[(k - 1) - 1]).0 < end);
            } else if n > 1 {
                assert(frames[0].0 < end);
            }
        }
        if n > 1 {
            assert(rest[n - 2] == frames[n - 1]);
        }
    }
}

/// Whether a row is that of a chapter and of its frames.
spec fn dealt(
    frames: Seq<Placed>,
    from: int,
    to: int,
    r: ChapterSummary,
    chapters: Seq<i64>,
    total_length: i128,
    chapter: int,
) -> bool {
    let end = end_of(chapters, total_length, chapter);
    &&& is_chapter(frames, from, to, end)
    &&& row_says(r, frames.subrange(from, to), chapters[chapter], end)
}

/// Where the walk is before the `k`th frame.
spec fn reached_before(frames: Seq<Placed>, k: int) -> i128 {
    if k <= 0 {
        0
    } else {
        frames[k - 1].0
    }
}

/// The rows of the chapters from the `chapter`th on, over the frames from the `from`th on.
spec fn rows_behind(
    frames: Seq<Placed>,
    from: int,
    chapters: Seq<i64>,
    total_length: i128,
    chapter: int,
) -> Seq<ChapterSummary> {
    rows_over(
        no_tally(),
        reached_before(frames, from),
        chapters,
        total_length,
        frames.subrange(from, frames.len() as int),
        chapter,
    )
}

#[verifier::rlimit(50)]
proof fn lemma_rows_say(
    frames: Seq<Placed>,
    from: int,
    chapters: Seq<i64>,
    total_length: i128,
    chapter: int,
) -> (cuts: Seq<int>)
    requires
        0 <= from <= frames.len() <= u64::MAX,
        0 <= chapter <= chapters.len(),
    ensures
        rows_behind(frames, from, chapters, total_length, chapter).len() == chapters.len()
            - chapter,
        cuts.len() == chapters.len() - chapter + 1,
        cuts[0] == from,
        forall|c: int|
            0 <= c < chapters.len() - chapter ==> #[trigger] dealt(
                frames,
                cuts[c],
                cuts[c + 1],
                rows_behind(frames, from, chapters, total_length, chapter)[c],
                chapters,
                total_length,
                chapter + c,
            ),
    decreases chapters.len() - chapter,
{
    let position = reached_before(frames, from);
    let rest = frames.subrange(from, frames.len() as int);
    let rows = rows_behind(frames, from, chapters, total_length, chapter);
    if chapter == chapters.len() {
        seq![from]
    } else {
        let end = end_of(chapters, total_length, chapter);
        lemma_taken(no_tally(), position, rest, end);
        let n = chapter_len(position, rest, end);
        let to = from + n;
        let own = frames.subrange(from, to);
        assert(rest.subrange(0, n) =~= own);
        assert(rest.subrange(n, rest.len() as int) =~= frames.subrange(to, frames.len() as int));
        lemma_tally_from_nothing(own);
        lemma_row_says(own, chapters[chapter], end);
        assert(n > 0 ==> rest[n - 1] == frames[to - 1]);
        let more = lemma_rows_say(frames, to, chapters, total_length, chapter + 1);
        let next = rows_behind(frames, to, chapters, total_length, chapter + 1);
        let cuts = seq![from] + more;
        assert(rows =~= seq![row(tally_after(own), chapters[chapter], end)] + next);
        assert(is_chapter(frames, from, to, end)) by {
            assert forall|k: int| from <= k < to implies (if k <= 0 {
                0i128
            } else {
                (#[trigger] frames[k - 1]).0
            }) < end by {
                if k > from {
                    assert(rest[k - from - 1] == frames[k - 1]);
                }
            }
        }
        assert forall|c: int| 0 <= c < chapters.len() - chapter implies #[trigger] dealt(
            frames,
            cuts[c],
            cuts[c + 1],
            rows[c],
            chapters,
            total_length,
            chapter + c,
        ) by {
            if c > 0 {
                let e = c - 1;
                assert(rows[c] == next[e]);
                assert(cuts[c] == more[e]);
                assert(cuts[c + 1] == more[e + 1]);
                assert(dealt(
                    frames,
                    more[e],
                    more[e + 1],
                    next[e],
                    chapters,
                    total_length,
                    chapter + 1 + e,
                ));
                assert(chapter + 1 + e == chapter + c);
            } else {
                assert(cuts[1] == more[0]);
                assert(rows[0] == row(tally_after(own), chapters[chapter], end));
            }
        }
        cuts
    }
}

/// There is one row per chapter mark. The frames that count are dealt out to the chapters in
/// their order, each chapter ending with the first frame that reaches the next mark, or the
/// end of the playlist; and each row says of its chapter's frames what there is to say: the
/// average rate, the peaks over one, five and ten seconds, and the average and the largest
/// frame.
pub proof fn lemma_what_the_chapters_say(
    chapters: Seq<i64>,
    total_length: i128,
    clips: Seq<ChapterClipView>,
)
    requires
        counted_frames(clips, 0, 0).len() <= u64::MAX,
    ensures
        ({
            let rows = chapter_rows(chapters, total_length, clips);
            let frames = counted_frames(clips, 0, 0);
            &&& rows.len() == chapters.len()
            &&& exists|cuts: Seq<int>|
                {
                    &&& cuts.len() == chapters.len() + 1
                    &&& cuts[0] == 0
                    &&& forall|c: int|
                        #![trigger cuts[c + 1]]
                        0 <= c < chapters.len() ==> {
                            let end = if c + 1 < chapters.len() {
                                chapters[c + 1] as i128
                            } else {
                                total_length
                            };
                            &&& is_chapter(frames, cuts[c], cuts[c + 1], end)
                            &&& row_says(
                                rows[c],
                                frames.subrange(cuts[c], cuts[c + 1]),
                                chapters[c],
                                end,
                            )
                        }
                }
        }),
{
    let frames = counted_frames(clips, 0, 0);
    let rows = chapter_rows(chapters, total_length, clips);
    lemma_rows_over_the_frames(no_tally(), 0, chapters, total_length, clips, 0, 0, 0);
    assert(frames.subrange(0, frames.len() as int) =~= frames);
    let cuts = lemma_rows_say(frames, 0, chapters, total_length, 0);
    assert forall|c: int| #![trigger cuts[c + 1]] 0 <= c < chapters.len() implies {
        let end = if c + 1 < chapters.len() {
            chapters[c + 1] as i128
        } else {
            total_length
        };
        &&& is_chapter(frames, cuts[c], cuts[c + 1], end)
        &&& row_says(rows[c], frames.subrange(cuts[c], cuts[c + 1]), chapters[c], end)
    } by {
        let behind = rows_behind(frames, 0, chapters, total_length, 0);
        assert(rows == behind);
        assert(dealt(frames, cuts[c], cuts[c + 1], behind[c], chapters, total_length, 0 + c));
    }
}

} // verus!
