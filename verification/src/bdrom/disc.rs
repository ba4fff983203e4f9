//! The disc-level model: what a scan reports of a disc, of its playlists and of their
//! clips.

use vstd::prelude::*;
use vstd::string::*;

pub use super::present::StreamSummary;
use super::chapters::ChapterSummary;
use super::measured::size_of_packets;
use super::present::{row_views, StreamRow};
use super::rates::{bit_rate, half_even, nearest, rate};
use crate::error::ScanError;
use crate::primitives::Pid;
use crate::stream::TsStreamType;

verus! {

/// The most extra camera angles that a playlist can declare: its angle count is one byte,
/// with the main angle in it.
pub const MAX_EXTRA_ANGLES: usize = 254;

/// The footnote to the mark that playlists with hidden streams are listed with.
pub const HIDDEN_STREAMS_NOTE: &'static str =
    "(*) Some playlists on this disc have hidden tracks. These tracks are marked with an asterisk.";

/// One stream's tallies over one whole stream file.
#[derive(Debug, PartialEq, Eq)]
pub struct ClipStreamTally {
    /// The packet identifier.
    pub pid: Pid,
    /// The coding type that the file's own table gives.
    pub stream_type: TsStreamType,
    /// The short codec name of the file's own stream.
    pub codec_short_name: String,
    /// The payload bytes.
    pub payload_bytes: u64,
    /// The transport packets.
    pub packet_count: u64,
}

/// What a [`ClipStreamTally`] holds.
pub struct TallyView {
    pub pid: Pid,
    pub stream_type: TsStreamType,
    pub codec_short_name: Seq<char>,
    pub payload_bytes: u64,
    pub packet_count: u64,
}

impl View for ClipStreamTally {
    type V = TallyView;

    open spec fn view(&self) -> TallyView {
        TallyView {
            pid: self.pid,
            stream_type: self.stream_type,
            codec_short_name: self.codec_short_name@,
            payload_bytes: self.payload_bytes,
            packet_count: self.packet_count,
        }
    }
}

/// One clip's measured tallies.
#[derive(Debug, PartialEq)]
pub struct ClipSummary {
    /// The clip's stream file.
    pub name: String,
    /// The name shown: that of the interleaved file where the clip has one.
    pub display_name: String,
    /// The size of the stream file, bytes; `0` where it is absent.
    pub file_size: u64,
    /// The size of the interleaved file, bytes; `0` where there is none.
    pub interleaved_file_size: u64,
    /// The camera angle; `0` is the main one.
    pub angle_index: i32,
    /// Where the clip starts on the playlist's timeline.
    pub relative_time_in: i64,
    /// The clip's length.
    pub length: i64,
    /// The payload bytes that the scan attributed to the clip.
    pub payload_bytes: u64,
    /// The transport packets that the scan attributed to the clip.
    pub packet_count: u64,
    /// How much of the clip the scan has seen.
    pub packet_ticks: i128,
    /// The presentation length of the whole stream file; `0` where it is absent.
    pub file_ticks: i64,
    /// The stream file's own tallies, in the order of registration, of the streams that
    /// the playlist presents.
    pub streams: Vec<ClipStreamTally>,
}

/// What a [`ClipSummary`] holds.
pub struct ClipSummaryView {
    pub name: Seq<char>,
    pub display_name: Seq<char>,
    pub file_size: u64,
    pub interleaved_file_size: u64,
    pub angle_index: i32,
    pub relative_time_in: i64,
    pub length: i64,
    pub payload_bytes: u64,
    pub packet_count: u64,
    pub packet_ticks: i128,
    pub file_ticks: i64,
    pub streams: Seq<TallyView>,
}

/// The views of a list of tallies.
pub open spec fn tally_views(tallies: Seq<ClipStreamTally>) -> Seq<TallyView> {
    tallies.map_values(|t: ClipStreamTally| t@)
}

impl View for ClipSummary {
    type V = ClipSummaryView;

    open spec fn view(&self) -> ClipSummaryView {
        ClipSummaryView {
            name: self.name@,
            display_name: self.display_name@,
            file_size: self.file_size,
            interleaved_file_size: self.interleaved_file_size,
            angle_index: self.angle_index,
            relative_time_in: self.relative_time_in,
            length: self.length,
            payload_bytes: self.payload_bytes,
            packet_count: self.packet_count,
            packet_ticks: self.packet_ticks,
            file_ticks: self.file_ticks,
            streams: tally_views(self.streams@),
        }
    }
}

/// The views of a list of clips.
pub open spec fn clip_summary_views(clips: Seq<ClipSummary>) -> Seq<ClipSummaryView> {
    clips.map_values(|c: ClipSummary| c@)
}

/// The bit rate of `size` bytes over `ticks`; `0` over no time.
pub open spec fn rate_over_spec(size: u64, ticks: i128) -> u64 {
    if ticks > 0 {
        bit_rate(size, ticks) as u64
    } else {
        0
    }
}

/// The size that is shown before anything is measured: the interleaved one, which holds
/// the other, then the other.
pub open spec fn estimated(interleaved: u64, plain: u64) -> Option<u64> {
    if interleaved > 0 {
        Some(interleaved)
    } else if plain > 0 {
        Some(plain)
    } else {
        None
    }
}

/// The bit rate of `size` bytes over `ticks`, rounded half to even; `0` over no time.
pub fn rate_over(size: u64, ticks: i128) -> (r: u64)
    ensures
        r == rate_over_spec(size, ticks),
{
    if ticks > 0 {
        let rounded: i64 = rate(size, ticks);
        assert(rounded >= 0) by {
            let n = size as int * 720_000;
            assert(n / (ticks as int) >= 0) by (nonlinear_arith)
                requires
                    n >= 0,
                    ticks > 0,
            ;
            assert(half_even(n, ticks as int) == nearest(n, ticks as int));
        }
        rounded as u64
    } else {
        0
    }
}

impl ClipSummary {
    /// The bytes of the clip's packets.
    pub fn packet_size(&self) -> (r: u64)
        ensures
            r == size_of_packets(self.packet_count),
    {
        self.packet_count.wrapping_mul(192)
    }

    /// The bit rate of the clip's packets over what was seen of it; `0` where that is
    /// nothing.
    pub fn packet_bit_rate(&self) -> (r: u64)
        ensures
            r == rate_over_spec(size_of_packets(self.packet_count), self.packet_ticks),
    {
        rate_over(self.packet_size(), self.packet_ticks)
    }

    /// The clip's size on the disc: that of the interleaved file where there is one, else
    /// that of the stream file.
    pub fn estimated_bytes(&self) -> (r: Option<u64>)
        ensures
            r == estimated(self.interleaved_file_size, self.file_size),
    {
        if self.interleaved_file_size > 0 {
            Some(self.interleaved_file_size)
        } else if self.file_size > 0 {
            Some(self.file_size)
        } else {
            None
        }
    }
}

/// One extra camera angle's totals.
#[derive(Debug, Clone, Copy, PartialEq, Eq, Structural)]
pub struct AngleTotals {
    /// The length of the angle's own clips.
    pub length: i128,
    /// The bytes of the packets of the angle's own clips.
    pub packet_size: u64,
    /// The bytes of the packets of the angle's whole timeline.
    pub timeline_packet_size: u64,
}

/// What a scan reports of one playlist.
#[derive(Debug, PartialEq)]
pub struct PlaylistSummary {
    /// The playlist's upper-cased file name.
    pub name: String,
    /// The presentation length.
    pub total_length: i128,
    /// The size of the clips' stream files, bytes.
    pub file_size: u64,
    /// The size of the clips' interleaved files, bytes.
    pub interleaved_file_size: u64,
    /// The number of chapter marks.
    pub chapter_count: usize,
    /// The number of presented streams, those not counted that only the interleaved
    /// source has.
    pub stream_count: usize,
    /// The number of extra camera angles.
    pub angle_count: usize,
    /// Whether two main clips play the same stream file from the same in-time.
    pub has_loops: bool,
    /// The presented streams, in PID order.
    pub streams: Vec<StreamSummary>,
    /// The clips, in playing order.
    pub clips: Vec<ClipSummary>,
    /// The chapters.
    pub chapters: Vec<ChapterSummary>,
}

/// What a [`PlaylistSummary`] holds.
pub struct PlaylistSummaryView {
    pub name: Seq<char>,
    pub total_length: i128,
    pub file_size: u64,
    pub interleaved_file_size: u64,
    pub chapter_count: int,
    pub stream_count: int,
    pub angle_count: int,
    pub has_loops: bool,
    pub streams: Seq<StreamRow>,
    pub clips: Seq<ClipSummaryView>,
    pub chapters: Seq<ChapterSummary>,
}

impl View for PlaylistSummary {
    type V = PlaylistSummaryView;

    open spec fn view(&self) -> PlaylistSummaryView {
        PlaylistSummaryView {
            name: self.name@,
            total_length: self.total_length,
            file_size: self.file_size,
            interleaved_file_size: self.interleaved_file_size,
            chapter_count: self.chapter_count as int,
            stream_count: self.stream_count as int,
            angle_count: self.angle_count as int,
            has_loops: self.has_loops,
            streams: row_views(self.streams@),
            clips: clip_summary_views(self.clips@),
            chapters: self.chapters@,
        }
    }
}

/// A number as a `u64`, the largest one where it does not fit.
pub open spec fn capped(x: int) -> u64 {
    if x > u64::MAX {
        u64::MAX
    } else {
        x as u64
    }
}

/// The bytes of a clip's packets.
pub open spec fn clip_size(c: ClipSummaryView) -> int {
    size_of_packets(c.packet_count) as int
}

/// The bytes of the packets of the first `n` clips, all of them or those of the main
/// angle.
pub open spec fn size_over(clips: Seq<ClipSummaryView>, n: int, main_only: bool) -> int
    decreases n,
{
    if n <= 0 {
        0
    } else {
        size_over(clips, n - 1, main_only) + (if !main_only || clips[n - 1].angle_index == 0 {
            clip_size(clips[n - 1])
        } else {
            0
        })
    }
}

/// The length of the first `n` clips.
pub open spec fn length_over(clips: Seq<ClipSummaryView>, n: int) -> int
    decreases n,
{
    if n <= 0 {
        0
    } else {
        length_over(clips, n - 1) + clips[n - 1].length
    }
}

/// Where on a timeline, from the `k`th place on, a clip starts at `time`.
pub open spec fn slot_from(clips: Seq<ClipSummaryView>, line: Seq<int>, time: i64, k: int) -> int
    decreases line.len() - k,
{
    if k < 0 || k >= line.len() || clips[line[k]].relative_time_in == time {
        k
    } else {
        slot_from(clips, line, time, k + 1)
    }
}

/// A timeline with the `i`th clip: in the place of one that starts at the same time, or
/// behind all the others.
pub open spec fn placed(clips: Seq<ClipSummaryView>, line: Seq<int>, i: int) -> Seq<int> {
    let k = slot_from(clips, line, clips[i].relative_time_in, 0);
    if k < line.len() {
        line.update(k, i)
    } else {
        line.push(i)
    }
}

/// The timeline of an extra angle over the first `n` clips: the main clips, with the
/// angle's own in the place of those that start at the same time.
pub open spec fn timeline(clips: Seq<ClipSummaryView>, angle: int, n: int) -> Seq<int>
    decreases n,
{
    if n <= 0 {
        Seq::empty()
    } else {
        let line = timeline(clips, angle, n - 1);
        if clips[n - 1].angle_index == 0 || clips[n - 1].angle_index == angle {
            placed(clips, line, n - 1)
        } else {
            line
        }
    }
}

/// The bytes of the packets of the first `n` clips of a timeline, all of them or those of
/// one angle.
pub open spec fn line_size(
    clips: Seq<ClipSummaryView>,
    line: Seq<int>,
    n: int,
    angle: Option<int>,
) -> int
    decreases n,
{
    if n <= 0 {
        0
    } else {
        let c = clips[line[n - 1]];
        line_size(clips, line, n - 1, angle) + (if angle is None || c.angle_index == angle->Some_0 {
            clip_size(c)
        } else {
            0
        })
    }
}

/// The length of those of the first `n` clips of a timeline that are of one angle.
pub open spec fn line_length(clips: Seq<ClipSummaryView>, line: Seq<int>, n: int, angle: int) -> int
    decreases n,
{
    if n <= 0 {
        0
    } else {
        let c = clips[line[n - 1]];
        line_length(clips, line, n - 1, angle) + (if c.angle_index == angle {
            c.length as int
        } else {
            0
        })
    }
}

/// The totals of an extra angle.
pub open spec fn totals_of(clips: Seq<ClipSummaryView>, angle: int) -> AngleTotals {
    let line = timeline(clips, angle, clips.len() as int);
    AngleTotals {
        length: line_length(clips, line, line.len() as int, angle) as i128,
        packet_size: capped(line_size(clips, line, line.len() as int, Some(angle))),
        timeline_packet_size: capped(line_size(clips, line, line.len() as int, None)),
    }
}

/// How many extra angles have totals.
pub open spec fn angles_of(angle_count: int) -> int {
    if angle_count > MAX_EXTRA_ANGLES {
        MAX_EXTRA_ANGLES as int
    } else {
        angle_count
    }
}

proof fn lemma_size_nonneg(clips: Seq<ClipSummaryView>, n: int, main_only: bool)
    ensures
        size_over(clips, n, main_only) >= 0,
    decreases n,
{
    if n > 0 {
        lemma_size_nonneg(clips, n - 1, main_only);
    }
}

proof fn lemma_line_size_nonneg(
    clips: Seq<ClipSummaryView>,
    line: Seq<int>,
    n: int,
    angle: Option<int>,
)
    ensures
        line_size(clips, line, n, angle) >= 0,
    decreases n,
{
    if n > 0 {
        lemma_line_size_nonneg(clips, line, n - 1, angle);
    }
}

proof fn lemma_slot_range(clips: Seq<ClipSummaryView>, line: Seq<int>, time: i64, k: int)
    requires
        0 <= k <= line.len(),
    ensures
        k <= slot_from(clips, line, time, k) <= line.len(),
    decreases line.len() - k,
{
    if k < line.len() && clips[line[k]].relative_time_in != time {
        lemma_slot_range(clips, line, time, k + 1);
    }
}

impl PlaylistSummary {
    /// The bytes of the packets of the main clips.
    pub fn total_packet_size(&self) -> (r: u64)
        ensures
            r == capped(size_over(self@.clips, self@.clips.len() as int, true)),
    {
        let ghost clips = self@.clips;
        let mut sum: u64 = 0;
        let mut i: usize = 0;
        while i < self.clips.len()
            invariant
                i <= self.clips@.len(),
                clips == self@.clips,
                sum == capped(size_over(clips, i as int, true)),
            decreases self.clips@.len() - i,
        {
            assert(clips[i as int] == self.clips@[i as int]@);
            proof {
                lemma_size_nonneg(clips, i as int, true);
            }
            if self.clips[i].angle_index == 0 {
                sum = sum.saturating_add(self.clips[i].packet_size());
            }
            i = i + 1;
        }
        sum
    }

    /// The bytes of the packets of all the clips.
    pub fn total_angle_packet_size(&self) -> (r: u64)
        ensures
            r == capped(size_over(self@.clips, self@.clips.len() as int, false)),
    {
        let ghost clips = self@.clips;
        let mut sum: u64 = 0;
        let mut i: usize = 0;
        while i < self.clips.len()
            invariant
                i <= self.clips@.len(),
                clips == self@.clips,
                sum == capped(size_over(clips, i as int, false)),
            decreases self.clips@.len() - i,
        {
            assert(clips[i as int] == self.clips@[i as int]@);
            proof {
                lemma_size_nonneg(clips, i as int, false);
            }
            sum = sum.saturating_add(self.clips[i].packet_size());
            i = i + 1;
        }
        sum
    }

    /// The length of all the clips.
    pub fn total_angle_length(&self) -> (r: i128)
        ensures
            r as int == length_over(self@.clips, self@.clips.len() as int),
    {
        let ghost clips = self@.clips;
        let mut length: i128 = 0;
        let mut i: usize = 0;
        while i < self.clips.len()
            invariant
                i <= self.clips@.len(),
                clips == self@.clips,
                length as int == length_over(clips, i as int),
                -(i as int) * 0x8000_0000_0000_0000 <= length <= i * 0x8000_0000_0000_0000,
            decreases self.clips@.len() - i,
        {
            assert(clips[i as int] == self.clips@[i as int]@);
            assert(self.clips.len() <= usize::MAX);
            length = length + self.clips[i].length as i128;
            i = i + 1;
        }
        length
    }

    /// The bit rate of the main clips' packets over the presentation length; `0` where
    /// that is none.
    pub fn total_bit_rate(&self) -> (r: u64)
        ensures
            r == rate_over_spec(
                capped(size_over(self@.clips, self@.clips.len() as int, true)),
                self.total_length,
            ),
    {
        rate_over(self.total_packet_size(), self.total_length)
    }

    /// The bit rate of all the clips' packets over all their lengths; `0` where that is
    /// none.
    pub fn total_angle_bit_rate(&self) -> (r: u64)
        ensures
            r == rate_over_spec(
                capped(size_over(self@.clips, self@.clips.len() as int, false)),
                length_over(self@.clips, self@.clips.len() as int) as i128,
            ),
    {
        rate_over(self.total_angle_packet_size(), self.total_angle_length())
    }

    /// Whether the playlist hides any of its streams.
    pub fn has_hidden_streams(&self) -> (r: bool)
        ensures
            r == exists|i: int| 0 <= i < self@.streams.len() && #[trigger] self@.streams[i].is_hidden,
    {
        let mut i: usize = 0;
        while i < self.streams.len()
            invariant
                i <= self.streams@.len(),
                forall|k: int| 0 <= k < i ==> !#[trigger] self@.streams[k].is_hidden,
            decreases self.streams@.len() - i,
        {
            assert(self@.streams[i as int] == self.streams@[i as int]@);
            if self.streams[i].is_hidden {
                assert(self@.streams[i as int].is_hidden);
                return true;
            }
            i = i + 1;
        }
        false
    }

    /// The playlist's size on the disc: that of the interleaved files where there are any,
    /// else that of the stream files.
    pub fn estimated_bytes(&self) -> (r: Option<u64>)
        ensures
            r == estimated(self.interleaved_file_size, self.file_size),
    {
        if self.interleaved_file_size > 0 {
            Some(self.interleaved_file_size)
        } else if self.file_size > 0 {
            Some(self.file_size)
        } else {
            None
        }
    }

    /// The timeline of an extra angle, by clip index.
    fn angle_timeline(&self, angle: i32) -> (r: Vec<usize>)
        ensures
            r@.map_values(|i: usize| i as int) == timeline(
                self@.clips,
                angle as int,
                self@.clips.len() as int,
            ),
            forall|k: int| 0 <= k < r@.len() ==> #[trigger] r@[k] < self.clips@.len(),
    {
        let ghost clips = self@.clips;
        let mut line: Vec<usize> = Vec::new();
        let mut i: usize = 0;
        proof {
            assert(line@.map_values(|i: usize| i as int) =~= Seq::<int>::empty());
        }
        while i < self.clips.len()
            invariant
                i <= self.clips@.len(),
                clips == self@.clips,
                line@.map_values(|i: usize| i as int) == timeline(clips, angle as int, i as int),
                forall|k: int| 0 <= k < line@.len() ==> #[trigger] line@[k] < i,
            decreases self.clips@.len() - i,
        {
            assert(clips[i as int] == self.clips@[i as int]@);
            if self.clips[i].angle_index == 0 || self.clips[i].angle_index == angle {
                let time: i64 = self.clips[i].relative_time_in;
                let ghost ints = line@.map_values(|i: usize| i as int);
                let mut k: usize = 0;
                while k < line.len() && self.clips[line[k]].relative_time_in != time
                    invariant
                        k <= line@.len(),
                        i < self.clips@.len(),
                        clips == self@.clips,
                        ints == line@.map_values(|i: usize| i as int),
                        forall|k: int| 0 <= k < line@.len() ==> #[trigger] line@[k] < i,
                        slot_from(clips, ints, time, k as int) == slot_from(clips, ints, time, 0),
                    decreases line@.len() - k,
                {
                    assert(clips[ints[k as int]] == self.clips@[line@[k as int] as int]@);
                    k = k + 1;
                }
                if k < line.len() {
                    assert(clips[ints[k as int]] == self.clips@[line@[k as int] as int]@);
                    line.set(k, i);
                    proof {
                        assert(line@.map_values(|i: usize| i as int) =~= ints.update(
                            k as int,
                            i as int,
                        ));
                    }
                } else {
                    line.push(i);
                    proof {
                        assert(line@.map_values(|i: usize| i as int) =~= ints.push(i as int));
                    }
                }
            }
            i = i + 1;
        }
        line
    }

    /// The totals of an extra angle.
    fn totals_of_angle(&self, angle: i32) -> (r: AngleTotals)
        ensures
            r == totals_of(self@.clips, angle as int),
    {
        let ghost clips = self@.clips;
        let line = self.angle_timeline(angle);
        let ghost ints = line@.map_values(|i: usize| i as int);
        let mut length: i128 = 0;
        let mut packet_size: u64 = 0;
        let mut timeline_packet_size: u64 = 0;
        let mut k: usize = 0;
        while k < line.len()
            invariant
                k <= line@.len(),
                clips == self@.clips,
                ints == line@.map_values(|i: usize| i as int),
                forall|j: int| 0 <= j < line@.len() ==> #[trigger] line@[j] < self.clips@.len(),
                length as int == line_length(clips, ints, k as int, angle as int),
                -(k as int) * 0x8000_0000_0000_0000 <= length <= k * 0x8000_0000_0000_0000,
                packet_size == capped(line_size(clips, ints, k as int, Some(angle as int))),
                timeline_packet_size == capped(line_size(clips, ints, k as int, None)),
            decreases line@.len() - k,
        {
            let clip = &self.clips[line[k]];
            assert(clips[ints[k as int]] == clip@);
            assert(line.len() <= usize::MAX);
            proof {
                lemma_line_size_nonneg(clips, ints, k as int, Some(angle as int));
                lemma_line_size_nonneg(clips, ints, k as int, None);
            }
            let size: u64 = clip.packet_size();
            timeline_packet_size = timeline_packet_size.saturating_add(size);
            if clip.angle_index == angle {
                packet_size = packet_size.saturating_add(size);
                length = length + clip.length as i128;
            }
            k = k + 1;
        }
        AngleTotals { length, packet_size, timeline_packet_size }
    }

    /// The totals of each extra camera angle, the first angle's first. There are at most
    /// [`MAX_EXTRA_ANGLES`], whatever the angle count says.
    pub fn angle_totals(&self) -> (r: Vec<AngleTotals>)
        ensures
            r@ == Seq::new(
                angles_of(self.angle_count as int) as nat,
                |i: int| totals_of(self@.clips, i + 1),
            ),
    {
        let n: usize = if self.angle_count > MAX_EXTRA_ANGLES {
            MAX_EXTRA_ANGLES
        } else {
            self.angle_count
        };
        let mut totals: Vec<AngleTotals> = Vec::new();
        let mut i: usize = 0;
        while i < n
            invariant
                i <= n,
                n <= MAX_EXTRA_ANGLES,
                totals@.len() == i,
                forall|k: int|
                    0 <= k < i ==> #[trigger] totals@[k] == totals_of(self@.clips, k + 1),
            decreases n - i,
        {
            totals.push(self.totals_of_angle(i as i32 + 1));
            i = i + 1;
        }
        proof {
            assert(totals@ =~= Seq::new(
                angles_of(self.angle_count as int) as nat,
                |i: int| totals_of(self@.clips, i + 1),
            ));
        }
        totals
    }
}

// ---- what holds of every summary ----

proof fn lemma_line_update(
    clips: Seq<ClipSummaryView>,
    line: Seq<int>,
    n: int,
    k: int,
    v: int,
    angle: Option<int>,
)
    requires
        0 <= n <= line.len(),
        0 <= k < line.len(),
    ensures
        line_size(clips, line.update(k, v), n, angle) <= line_size(clips, line, n, angle) + (if k
            < n {
            clip_size(clips[v])
        } else {
            0
        }),
    decreases n,
{
    if n > 0 {
        lemma_line_update(clips, line, n - 1, k, v, angle);
    }
}

proof fn lemma_line_push(
    clips: Seq<ClipSummaryView>,
    line: Seq<int>,
    n: int,
    v: int,
    angle: Option<int>,
)
    requires
        0 <= n <= line.len(),
    ensures
        line_size(clips, line.push(v), n, angle) == line_size(clips, line, n, angle),
    decreases n,
{
    if n > 0 {
        lemma_line_push(clips, line, n - 1, v, angle);
    }
}

proof fn lemma_timeline_size(clips: Seq<ClipSummaryView>, angle: int, n: int)
    requires
        0 <= n <= clips.len(),
    ensures
        line_size(
            clips,
            timeline(clips, angle, n),
            timeline(clips, angle, n).len() as int,
            None,
        ) <= size_over(clips, n, false),
    decreases n,
{
    if n > 0 {
        lemma_timeline_size(clips, angle, n - 1);
        let line = timeline(clips, angle, n - 1);
        let k = slot_from(clips, line, clips[n - 1].relative_time_in, 0);
        lemma_slot_range(clips, line, clips[n - 1].relative_time_in, 0);
        if clips[n - 1].angle_index == 0 || clips[n - 1].angle_index == angle {
            if k < line.len() {
                lemma_line_update(clips, line, line.len() as int, k, n - 1, None);
            } else {
                lemma_line_push(clips, line, line.len() as int, n - 1, None);
            }
        }
    }
}

proof fn lemma_own_size(clips: Seq<ClipSummaryView>, line: Seq<int>, n: int, angle: int)
    ensures
        line_size(clips, line, n, Some(angle)) <= line_size(clips, line, n, None),
    decreases n,
{
    if n > 0 {
        lemma_own_size(clips, line, n - 1, angle);
    }
}

proof fn lemma_main_size(clips: Seq<ClipSummaryView>, n: int)
    ensures
        size_over(clips, n, true) <= size_over(clips, n, false),
    decreases n,
{
    if n > 0 {
        lemma_main_size(clips, n - 1);
    }
}

/// The main clips' size is at most that of all the clips; an angle's own size is at most
/// that of its timeline; and a timeline's size is at most that of all the clips.
pub proof fn lemma_sizes_nest(clips: Seq<ClipSummaryView>, angle: int)
    ensures
        capped(size_over(clips, clips.len() as int, true)) <= capped(
            size_over(clips, clips.len() as int, false),
        ),
        totals_of(clips, angle).packet_size <= totals_of(clips, angle).timeline_packet_size,
        totals_of(clips, angle).timeline_packet_size <= capped(
            size_over(clips, clips.len() as int, false),
        ),
{
    let n = clips.len() as int;
    let line = timeline(clips, angle, n);
    lemma_main_size(clips, n);
    lemma_size_nonneg(clips, n, true);
    lemma_own_size(clips, line, line.len() as int, angle);
    lemma_line_size_nonneg(clips, line, line.len() as int, Some(angle));
    lemma_timeline_size(clips, angle, n);
}

/// How deep a scan reads.
#[derive(Debug, Clone, Copy, PartialEq, Eq, Structural)]
pub enum ScanMode {
    /// The metadata alone.
    Metadata,
    /// The metadata, and the head of each stream file for the codec detail.
    Codecs,
    /// The metadata, the codec detail, and every byte of the stream files for the rates.
    Full,
}

impl ScanMode {
    /// Whether any stream file is read.
    pub fn scans_packets(self) -> (r: bool)
        ensures
            r == !(self is Metadata),
    {
        matches!(self, ScanMode::Codecs | ScanMode::Full)
    }

    /// Whether the stream files are read whole.
    pub fn measures_bitrate(self) -> (r: bool)
        ensures
            r == (self is Full),
    {
        matches!(self, ScanMode::Full)
    }
}

/// Switches of a scan, whatever its depth.
#[derive(Debug, Clone, Copy, PartialEq, Eq, Structural)]
pub struct ScanOptions {
    /// Whether a resilient scan keeps what it has measured of a stream file whose reading
    /// failed partway.
    pub keep_partial: bool,
}

impl Default for ScanOptions {
    fn default() -> (r: Self)
        ensures
            r.keep_partial,
    {
        ScanOptions { keep_partial: true }
    }
}

/// How far a scan is.
#[derive(Debug, Clone, Copy, PartialEq, Eq)]
pub struct ScanProgress<'a> {
    /// The stream file that is being read.
    pub file: &'a str,
    /// The bytes read so far.
    pub done: u64,
    /// The bytes that there are to read.
    pub total: u64,
}

/// A scanned disc.
#[derive(Debug, PartialEq)]
pub struct BdRom {
    /// The volume label.
    pub volume_label: String,
    /// The disc title, where the disc has one.
    pub disc_title: Option<String>,
    /// The disc's size without the interleaved files, bytes.
    pub size: u64,
    /// The size of the interleaved files, bytes.
    pub interleaved_size: u64,
    /// Whether it is a 3D disc.
    pub is_3d: bool,
    /// Whether any playlist is of 25 or 50 frames per second.
    pub is_50hz: bool,
    /// Whether it is an Ultra HD disc.
    pub is_uhd: bool,
    /// Whether the stream files are encrypted.
    pub is_aacs_encrypted: bool,
    /// Whether it has BD+ protection.
    pub is_bd_plus: bool,
    /// Whether it has BD-Java.
    pub is_bd_java: bool,
    /// Whether it has D-BOX motion code.
    pub is_dbox: bool,
    /// Whether it has PSP content.
    pub is_psp: bool,
    /// The playlists, by name.
    pub playlists: Vec<PlaylistSummary>,
}

/// The outcome of a resilient scan: the disc, as far as it could be read, and what could
/// not be.
#[derive(Debug)]
pub struct ScanReport {
    /// The disc.
    pub bdrom: BdRom,
    /// The failures, in the order in which the scan met them.
    pub errors: Vec<ScanError>,
}

/// A list of labels with one more, where it is set.
pub open spec fn labelled_if(set: bool, label: Seq<char>, labels: Seq<Seq<char>>) -> Seq<Seq<char>> {
    if set {
        labels.push(label)
    } else {
        labels
    }
}

/// The labels of a disc's extra features.
pub open spec fn feature_labels(d: BdRom) -> Seq<Seq<char>> {
    let a = labelled_if(d.is_uhd, "Ultra HD"@, Seq::empty());
    let b = labelled_if(d.is_bd_java, "BD-Java"@, a);
    let c = labelled_if(d.is_50hz, "50Hz Content"@, b);
    let e = labelled_if(d.is_3d, "Blu-ray 3D"@, c);
    let f = labelled_if(d.is_dbox, "D-BOX Motion Code"@, e);
    labelled_if(d.is_psp, "PSP Digital Copy"@, f)
}

/// The texts of a list of labels.
pub open spec fn label_views(labels: Seq<&'static str>) -> Seq<Seq<char>> {
    labels.map_values(|s: &'static str| s@)
}

/// Adds a label where it is set.
fn add_label(labels: &mut Vec<&'static str>, set: bool, label: &'static str)
    ensures
        label_views(final(labels)@) == labelled_if(set, label@, label_views(old(labels)@)),
{
    if set {
        let ghost was = label_views(labels@);
        labels.push(label);
        proof {
            assert(label_views(labels@) =~= was.push(label@));
        }
    }
}

impl BdRom {
    /// The disc's whole size, the interleaved files included.
    pub fn full_size(&self) -> (r: u64)
        ensures
            r == capped(self.size + self.interleaved_size),
    {
        self.size.saturating_add(self.interleaved_size)
    }

    /// The labels of the disc's extra features, one per set flag.
    pub fn extra_features(&self) -> (r: Vec<&'static str>)
        ensures
            label_views(r@) == feature_labels(*self),
    {
        let mut labels: Vec<&'static str> = Vec::new();
        proof {
            assert(label_views(labels@) =~= Seq::empty());
        }
        add_label(&mut labels, self.is_uhd, "Ultra HD");
        add_label(&mut labels, self.is_bd_java, "BD-Java");
        add_label(&mut labels, self.is_50hz, "50Hz Content");
        add_label(&mut labels, self.is_3d, "Blu-ray 3D");
        add_label(&mut labels, self.is_dbox, "D-BOX Motion Code");
        add_label(&mut labels, self.is_psp, "PSP Digital Copy");
        labels
    }
}

} // verus!
