//! What the sizes, lengths and counts of a summary add up to.

use vstd::prelude::*;

use super::clpi::ClipView;
use super::disc::{
    angles_of, capped, clip_size, estimated, length_over, line_length, line_size, rate_over_spec,
    size_over, slot_from, timeline, totals_of, ClipSummaryView,
};
use super::m2ts::FileView;
use super::measured::{clip_bytes, measured_playlist, size_of_packets};
use super::mpls::{total, PlaylistView};
use super::present::{StreamRow, StreamText};
use super::rate_laws::lemma_a_bit_rate_is_bits_over_seconds;
use super::resolve::{stem, MetaView};
use super::summarise::{
    clip_row, clip_rows, files_size, interleaved_size, loops, presented_count, replays, size_at,
    summary_by, tallies_of,
};
use crate::names::find;
use crate::sums::{lemma_sum_nonneg, lemma_sum_push, lemma_sum_update, sum};

verus! {

/// Whether a number is a sum as a `u64` holds it: the sum itself, and the largest there is
/// where the sum is larger.
pub open spec fn holds_sum(x: u64, values: Seq<int>) -> bool {
    &&& sum(values) <= u64::MAX ==> x == sum(values)
    &&& sum(values) > u64::MAX ==> x == u64::MAX
}

proof fn lemma_capped_holds(x: int, values: Seq<int>)
    requires
        x == sum(values),
        forall|k: int| 0 <= k < values.len() ==> #[trigger] values[k] >= 0,
    ensures
        holds_sum(capped(x), values),
{
    lemma_sum_nonneg(values);
}

// ---- a playlist's sizes ----

proof fn lemma_files_size_is_sum<T: StreamText>(
    text: T,
    p: PlaylistView,
    stream_files: Seq<(Seq<char>, u64)>,
    interleaved_files: Seq<(Seq<char>, u64)>,
    measured: Seq<(Seq<char>, FileView)>,
    n: int,
)
    requires
        0 <= n <= p.clips.len(),
    ensures
        ({
            let rows = clip_rows(text, p, stream_files, interleaved_files, measured);
            &&& files_size(p.clips, stream_files, n) == sum(
                Seq::new(n as nat, |i: int| rows[i].file_size as int),
            )
            &&& interleaved_size(p.clips, interleaved_files, n) == sum(
                Seq::new(n as nat, |i: int| rows[i].interleaved_file_size as int),
            )
        }),
    decreases n,
{
    let rows = clip_rows(text, p, stream_files, interleaved_files, measured);
    let plain = Seq::new(n as nat, |i: int| rows[i].file_size as int);
    let inter = Seq::new(n as nat, |i: int| rows[i].interleaved_file_size as int);
    if n > 0 {
        lemma_files_size_is_sum(text, p, stream_files, interleaved_files, measured, n - 1);
        assert(plain.drop_last() =~= Seq::new((n - 1) as nat, |i: int| rows[i].file_size as int));
        assert(inter.drop_last() =~= Seq::new(
            (n - 1) as nat,
            |i: int| rows[i].interleaved_file_size as int,
        ));
    }
}

/// A playlist's size is the sum of the sizes of its clips' stream files, extra angles
/// included and each clip counted, and so is that of its interleaved files. The clip rows
/// show the sizes that are added up: those of the files' names in the tables, and nothing
/// for a file that is not there.
pub proof fn lemma_a_playlist_is_as_large_as_its_clips<T: StreamText>(
    text: T,
    p: PlaylistView,
    metas: Seq<MetaView>,
    stream_files: Seq<(Seq<char>, u64)>,
    interleaved_files: Seq<(Seq<char>, u64)>,
    measured: Seq<(Seq<char>, FileView)>,
)
    ensures
        ({
            let s = summary_by(text, p, metas, stream_files, interleaved_files, measured).0;
            let n = p.clips.len();
            &&& s.clips.len() == n
            &&& holds_sum(s.file_size, Seq::new(n, |i: int| s.clips[i].file_size as int))
            &&& holds_sum(
                s.interleaved_file_size,
                Seq::new(n, |i: int| s.clips[i].interleaved_file_size as int),
            )
            &&& forall|i: int|
                #![trigger s.clips[i]]
                0 <= i < n ==> match find(stream_files, p.clips[i].name) {
                    Some(size) => s.clips[i].file_size == size,
                    None => s.clips[i].file_size == 0,
                }
            &&& forall|i: int|
                #![trigger s.clips[i]]
                0 <= i < n ==> match find(interleaved_files, stem(p.clips[i].name) + ".SSIF"@) {
                    Some(size) => s.clips[i].interleaved_file_size == size,
                    None => s.clips[i].interleaved_file_size == 0,
                }
        }),
{
    lemma_files_size_is_sum(
        text,
        p,
        stream_files,
        interleaved_files,
        measured,
        p.clips.len() as int,
    );
    let s = summary_by(text, p, metas, stream_files, interleaved_files, measured).0;
    let n = p.clips.len();
    let rows = clip_rows(text, p, stream_files, interleaved_files, measured);
    let plain = Seq::new(n, |i: int| s.clips[i].file_size as int);
    let inter = Seq::new(n, |i: int| s.clips[i].interleaved_file_size as int);
    assert(plain =~= Seq::new(n, |i: int| rows[i].file_size as int));
    assert(inter =~= Seq::new(n, |i: int| rows[i].interleaved_file_size as int));
    lemma_capped_holds(files_size(p.clips, stream_files, n as int), plain);
    lemma_capped_holds(interleaved_size(p.clips, interleaved_files, n as int), inter);
}

proof fn lemma_files_size_of_prefix(
    a: Seq<ClipView>,
    b: Seq<ClipView>,
    files: Seq<(Seq<char>, u64)>,
    n: int,
)
    requires
        forall|k: int| 0 <= k < n ==> a[k] == b[k],
    ensures
        files_size(a, files, n) == files_size(b, files, n),
        interleaved_size(a, files, n) == interleaved_size(b, files, n),
    decreases n,
{
    if n > 0 {
        lemma_files_size_of_prefix(a, b, files, n - 1);
        assert(a[n - 1] == b[n - 1]);
    }
}

/// One clip more adds the size of its file, and of its interleaved file, whatever is played
/// before it.
pub proof fn lemma_a_clip_adds_its_file(
    clips: Seq<ClipView>,
    clip: ClipView,
    files: Seq<(Seq<char>, u64)>,
)
    ensures
        files_size(clips.push(clip), files, clips.push(clip).len() as int) == files_size(
            clips,
            files,
            clips.len() as int,
        ) + size_at(files, clip.name),
        interleaved_size(clips.push(clip), files, clips.push(clip).len() as int) == interleaved_size(
            clips,
            files,
            clips.len() as int,
        ) + size_at(files, stem(clip.name) + ".SSIF"@),
        files_size(clips, files, 0) == 0,
        interleaved_size(clips, files, 0) == 0,
{
    lemma_files_size_of_prefix(clips, clips.push(clip), files, clips.len() as int);
}

/// A clip's row has the clip's own name, times and tallies, the length of the scanned file
/// and the name that it is shown with where there is one.
pub proof fn lemma_a_clip_row_is_the_clips<T: StreamText>(
    text: T,
    p: PlaylistView,
    clip: ClipView,
    stream_files: Seq<(Seq<char>, u64)>,
    interleaved_files: Seq<(Seq<char>, u64)>,
    measured: Seq<(Seq<char>, FileView)>,
)
    ensures
        ({
            let r = clip_row(text, p, clip, stream_files, interleaved_files, measured);
            &&& r.name == clip.name
            &&& r.angle_index == clip.angle_index
            &&& r.relative_time_in == clip.relative_time_in
            &&& r.length == clip.length
            &&& r.payload_bytes == clip.payload_bytes
            &&& r.packet_count == clip.packet_count
            &&& r.packet_ticks == clip.packet_ticks
            &&& match find(measured, clip.name) {
                Some(f) => {
                    &&& r.file_ticks == f.length
                    &&& f.interleaved_file is Some ==> r.display_name
                        == f.interleaved_file->Some_0
                    &&& f.interleaved_file is None ==> r.display_name == f.name
                },
                None => r.file_ticks == 0 && r.display_name == clip.name && r.streams.len() == 0,
            }
        }),
{
}

#[verifier::rlimit(50)]
proof fn lemma_tallies<T: StreamText>(
    text: T,
    file: FileView,
    presented: Map<u16, crate::stream::TsStream>,
    n: int,
)
    requires
        0 <= n <= file.stream_order.len(),
        file.stream_order.no_duplicates(),
    ensures
        forall|j: int|
            #![trigger tallies_of(text, file, presented, n)[j]]
            0 <= j < tallies_of(text, file, presented, n).len() ==> {
                let t = tallies_of(text, file, presented, n)[j];
                let s = file.streams[t.pid.raw];
                &&& file.streams.contains_key(t.pid.raw)
                &&& presented.contains_key(t.pid.raw)
                &&& exists|i: int| 0 <= i < n && #[trigger] file.stream_order[i] == t.pid.raw
                &&& t.payload_bytes == s.common().payload_bytes
                &&& t.packet_count == s.common().packet_count
                &&& t.stream_type == s.common().stream_type
                &&& t.codec_short_name == text.short_name_of(s)
            },
        forall|i: int|
            #![trigger file.stream_order[i]]
            0 <= i < n && file.streams.contains_key(file.stream_order[i])
                && presented.contains_key(file.stream_order[i]) ==> exists|j: int|
                0 <= j < tallies_of(text, file, presented, n).len() && (#[trigger] tallies_of(
                    text,
                    file,
                    presented,
                    n,
                )[j]).pid.raw == file.stream_order[i],
        forall|a: int, b: int|
            #![trigger tallies_of(text, file, presented, n)[a], tallies_of(text, file, presented, n)[b]]
            0 <= a < b < tallies_of(text, file, presented, n).len() ==> tallies_of(
                text,
                file,
                presented,
                n,
            )[a].pid.raw != tallies_of(text, file, presented, n)[b].pid.raw,
    decreases n,
{
    if n > 0 {
        lemma_tallies(text, file, presented, n - 1);
        let before = tallies_of(text, file, presented, n - 1);
        let now = tallies_of(text, file, presented, n);
        let pid = file.stream_order[n - 1];
        assert(now == before || now == before.push(now.last()));
        assert forall|j: int| #![trigger now[j]] 0 <= j < now.len() implies {
            let t = now[j];
            let s = file.streams[t.pid.raw];
            &&& file.streams.contains_key(t.pid.raw)
            &&& presented.contains_key(t.pid.raw)
            &&& exists|i: int| 0 <= i < n && #[trigger] file.stream_order[i] == t.pid.raw
            &&& t.payload_bytes == s.common().payload_bytes
            &&& t.packet_count == s.common().packet_count
            &&& t.stream_type == s.common().stream_type
            &&& t.codec_short_name == text.short_name_of(s)
        } by {
            if j < before.len() {
                assert(now[j] == before[j]);
                let i = choose|i: int|
                    0 <= i < n - 1 && #[trigger] file.stream_order[i] == now[j].pid.raw;
                assert(0 <= i < n && file.stream_order[i] == now[j].pid.raw);
            } else {
                assert(file.stream_order[n - 1] == now[j].pid.raw);
            }
        }
        assert forall|i: int| #![trigger file.stream_order[i]]
            0 <= i < n && file.streams.contains_key(file.stream_order[i])
                && presented.contains_key(file.stream_order[i]) implies exists|j: int|
            0 <= j < now.len() && (#[trigger] now[j]).pid.raw == file.stream_order[i] by {
            if i < n - 1 {
                let j = choose|j: int|
                    0 <= j < before.len() && (#[trigger] before[j]).pid.raw
                        == file.stream_order[i];
                assert(now[j] == before[j]);
            } else {
                assert(now[before.len() as int].pid.raw == pid);
            }
        }
        assert forall|a: int, b: int| #![trigger now[a], now[b]]
            0 <= a < b < now.len() implies now[a].pid.raw != now[b].pid.raw by {
            assert(now[a] == before[a]);
            let i = choose|i: int|
                0 <= i < n - 1 && #[trigger] file.stream_order[i] == before[a].pid.raw;
            if b < before.len() {
                assert(now[b] == before[b]);
            } else {
                assert(file.stream_order[i] != file.stream_order[n - 1]);
            }
        }
    }
}

/// A clip's row tallies exactly the streams that its stream file has registered and that the
/// playlist presents, each once, with the bytes and packets of the whole file.
pub proof fn lemma_a_clip_row_tallies_the_presented_streams<T: StreamText>(
    text: T,
    p: PlaylistView,
    clip: ClipView,
    stream_files: Seq<(Seq<char>, u64)>,
    interleaved_files: Seq<(Seq<char>, u64)>,
    measured: Seq<(Seq<char>, FileView)>,
    file: FileView,
)
    requires
        find(measured, clip.name) == Some(file),
        file.stream_order.no_duplicates(),
        forall|pid: u16| #[trigger]
            file.streams.contains_key(pid) ==> file.stream_order.contains(pid),
    ensures
        ({
            let r = clip_row(text, p, clip, stream_files, interleaved_files, measured).streams;
            &&& forall|j: int|
                #![trigger r[j]]
                0 <= j < r.len() ==> {
                    let pid = r[j].pid.raw;
                    let s = file.streams[pid];
                    &&& file.streams.contains_key(pid)
                    &&& p.streams.contains_key(pid)
                    &&& r[j].payload_bytes == s.common().payload_bytes
                    &&& r[j].packet_count == s.common().packet_count
                    &&& r[j].stream_type == s.common().stream_type
                    &&& r[j].codec_short_name == text.short_name_of(s)
                }
            &&& forall|pid: u16| #[trigger]
                file.streams.contains_key(pid) && p.streams.contains_key(pid) ==> exists|j: int|
                    0 <= j < r.len() && (#[trigger] r[j]).pid.raw == pid
            &&& forall|a: int, b: int|
                #![trigger r[a], r[b]]
                0 <= a < b < r.len() ==> r[a].pid.raw != r[b].pid.raw
        }),
{
    let n = file.stream_order.len() as int;
    lemma_tallies(text, file, p.streams, n);
    let r = clip_row(text, p, clip, stream_files, interleaved_files, measured).streams;
    assert(r == tallies_of(text, file, p.streams, n));
    assert forall|pid: u16| #[trigger]
        file.streams.contains_key(pid) && p.streams.contains_key(pid) implies exists|j: int|
        0 <= j < r.len() && (#[trigger] r[j]).pid.raw == pid by {
        let i = choose|i: int| 0 <= i < n && file.stream_order[i] == pid;
        assert(file.stream_order[i] == pid);
    }
}

// ---- counts ----

proof fn lemma_presented_is_filter(rows: Seq<StreamRow>, n: int)
    requires
        0 <= n <= rows.len(),
    ensures
        presented_count(rows, n) == sum(
            Seq::new(
                n as nat,
                |i: int|
                    if rows[i].ssif_only {
                        0int
                    } else {
                        1int
                    },
            ),
        ),
    decreases n,
{
    let ones = Seq::new(
        n as nat,
        |i: int|
            if rows[i].ssif_only {
                0int
            } else {
                1int
            },
    );
    if n > 0 {
        lemma_presented_is_filter(rows, n - 1);
        assert(ones.drop_last() =~= Seq::new(
            (n - 1) as nat,
            |i: int|
                if rows[i].ssif_only {
                    0int
                } else {
                    1int
                },
        ));
    }
}

/// A summary counts one for every row of a stream that is presented by more than the
/// interleaved source, one for every chapter mark, and the extra angles. It has the
/// playlist's name, and loops where one main clip plays the same file from the same time as
/// another.
pub proof fn lemma_what_a_summary_counts<T: StreamText>(
    text: T,
    p: PlaylistView,
    metas: Seq<MetaView>,
    stream_files: Seq<(Seq<char>, u64)>,
    interleaved_files: Seq<(Seq<char>, u64)>,
    measured: Seq<(Seq<char>, FileView)>,
)
    ensures
        ({
            let s = summary_by(text, p, metas, stream_files, interleaved_files, measured).0;
            &&& s.name == p.name
            &&& s.chapter_count == p.chapters.len()
            &&& p.angle_count >= 0 ==> s.angle_count == p.angle_count
            &&& p.angle_count < 0 ==> s.angle_count == 0
            &&& s.stream_count == sum(
                Seq::new(
                    s.streams.len(),
                    |i: int|
                        if s.streams[i].ssif_only {
                            0int
                        } else {
                            1int
                        },
                ),
            )
            &&& forall|i: int, j: int|
                #![trigger p.clips[i], p.clips[j]]
                0 <= i < j < p.clips.len() && p.clips[i].angle_index == 0
                    && p.clips[j].angle_index == 0 && p.clips[i].name == p.clips[j].name
                    && p.clips[i].time_in == p.clips[j].time_in ==> s.has_loops
            &&& s.has_loops ==> exists|i: int, j: int|
                #![trigger p.clips[i], p.clips[j]]
                0 <= i < j < p.clips.len() && p.clips[i].angle_index == 0
                    && p.clips[j].angle_index == 0 && p.clips[i].name == p.clips[j].name
                    && p.clips[i].time_in == p.clips[j].time_in
        }),
{
    let s = summary_by(text, p, metas, stream_files, interleaved_files, measured).0;
    lemma_presented_is_filter(s.streams, s.streams.len() as int);
    assert forall|i: int, j: int| #![trigger p.clips[i], p.clips[j]]
        0 <= i < j < p.clips.len() && p.clips[i].angle_index == 0 && p.clips[j].angle_index == 0
            && p.clips[i].name == p.clips[j].name && p.clips[i].time_in
            == p.clips[j].time_in implies s.has_loops by {
        assert(replays(p.clips[i], p.clips[j]));
    }
    if loops(p.clips) {
        let (i, j) = choose|i: int, j: int|
            0 <= i < j < p.clips.len() && #[trigger] replays(p.clips[i], p.clips[j]);
        assert(p.clips[i].name == p.clips[j].name);
    }
}

// ---- lengths ----

proof fn lemma_total_is_sum(clips: Seq<ClipView>)
    ensures
        total(clips) == sum(
            Seq::new(
                clips.len(),
                |i: int|
                    if clips[i].angle_index == 0 {
                        clips[i].length as int
                    } else {
                        0
                    },
            ),
        ),
    decreases clips.len(),
{
    let lengths = Seq::new(
        clips.len(),
        |i: int|
            if clips[i].angle_index == 0 {
                clips[i].length as int
            } else {
                0
            },
    );
    if clips.len() > 0 {
        let rest = clips.drop_last();
        lemma_total_is_sum(rest);
        assert(lengths.drop_last() =~= Seq::new(
            rest.len(),
            |i: int|
                if rest[i].angle_index == 0 {
                    rest[i].length as int
                } else {
                    0
                },
        ));
    }
}

/// A playlist is as long as its main clips together; the clips of the extra angles, which
/// are played in their place, add nothing.
pub proof fn lemma_a_playlist_is_as_long_as_its_main_clips<T: StreamText>(
    text: T,
    p: PlaylistView,
    metas: Seq<MetaView>,
    stream_files: Seq<(Seq<char>, u64)>,
    interleaved_files: Seq<(Seq<char>, u64)>,
    measured: Seq<(Seq<char>, FileView)>,
)
    requires
        p.clips.len() <= u32::MAX,
    ensures
        summary_by(text, p, metas, stream_files, interleaved_files, measured).0.total_length == sum(
            Seq::new(
                p.clips.len(),
                |i: int|
                    if p.clips[i].angle_index == 0 {
                        p.clips[i].length as int
                    } else {
                        0
                    },
            ),
        ),
{
    lemma_total_is_sum(p.clips);
    lemma_total_bounds(p.clips);
}

proof fn lemma_total_bounds(clips: Seq<ClipView>)
    ensures
        -(clips.len() * 0x8000_0000_0000_0000) <= total(clips) <= clips.len()
            * 0x8000_0000_0000_0000,
    decreases clips.len(),
{
    if clips.len() > 0 {
        lemma_total_bounds(clips.drop_last());
    }
}

// ---- packets ----

/// The bytes of packets are 192 for each.
pub proof fn lemma_a_packet_has_192_bytes(packets: u64)
    requires
        packets * 192 <= u64::MAX,
    ensures
        size_of_packets(packets) == packets * 192,
{
}

/// The bytes of the packets of the first `n` clips, one by one.
spec fn packet_sizes(clips: Seq<ClipSummaryView>, n: int, main_only: bool) -> Seq<int> {
    Seq::new(
        n as nat,
        |i: int|
            if main_only && clips[i].angle_index != 0 {
                0
            } else {
                clip_size(clips[i])
            },
    )
}

proof fn lemma_size_over_is_sum(clips: Seq<ClipSummaryView>, n: int, main_only: bool)
    requires
        0 <= n <= clips.len(),
    ensures
        size_over(clips, n, main_only) == sum(
            packet_sizes(clips, n, main_only),
        ),
        length_over(clips, n) == sum(Seq::new(n as nat, |i: int| clips[i].length as int)),
    decreases n,
{
    let sizes = packet_sizes(clips, n, main_only);
    let lengths = Seq::new(n as nat, |i: int| clips[i].length as int);
    if n > 0 {
        lemma_size_over_is_sum(clips, n - 1, main_only);
        assert(sizes.drop_last() =~= packet_sizes(clips, n - 1, main_only));
        assert(lengths.drop_last() =~= Seq::new((n - 1) as nat, |i: int| clips[i].length as int));
    }
}

/// What the totals of a playlist's packets add up: 192 bytes for each packet of each main
/// clip, or of every clip; and all the clips' lengths.
pub proof fn lemma_packet_totals_are_sums(clips: Seq<ClipSummaryView>)
    requires
        forall|i: int|
            0 <= i < clips.len() ==> (#[trigger] clips[i]).packet_count * 192 <= u64::MAX,
    ensures
        holds_sum(
            capped(size_over(clips, clips.len() as int, true)),
            Seq::new(
                clips.len(),
                |i: int|
                    if clips[i].angle_index == 0 {
                        clips[i].packet_count * 192
                    } else {
                        0
                    },
            ),
        ),
        holds_sum(
            capped(size_over(clips, clips.len() as int, false)),
            Seq::new(clips.len(), |i: int| clips[i].packet_count * 192),
        ),
        length_over(clips, clips.len() as int) == sum(
            Seq::new(clips.len(), |i: int| clips[i].length as int),
        ),
{
    let n = clips.len() as int;
    lemma_size_over_is_sum(clips, n, true);
    lemma_size_over_is_sum(clips, n, false);
    let main = Seq::new(
        clips.len(),
        |i: int|
            if clips[i].angle_index == 0 {
                clips[i].packet_count * 192
            } else {
                0
            },
    );
    let all = Seq::new(clips.len(), |i: int| clips[i].packet_count * 192);
    assert forall|i: int| 0 <= i < clips.len() implies clip_size(#[trigger] clips[i])
        == clips[i].packet_count * 192 by {
        lemma_a_packet_has_192_bytes(clips[i].packet_count);
    }
    assert(packet_sizes(clips, n, true) =~= main);
    assert(packet_sizes(clips, n, false) =~= all);
    lemma_capped_holds(size_over(clips, n, true), main);
    lemma_capped_holds(size_over(clips, n, false), all);
}

/// A rate over a length is bits over seconds to the nearest whole number, and nothing over
/// no time or less.
pub proof fn lemma_a_rate_over_a_length(size: u64, ticks: i128)
    ensures
        ticks <= 0 ==> rate_over_spec(size, ticks) == 0,
        ticks > 0 && rate_over_spec(size, ticks) < i64::MAX ==> 2 * (size * 8 * 90_000
            - rate_over_spec(size, ticks) * ticks) <= ticks && 2 * (rate_over_spec(size, ticks)
            * ticks - size * 8 * 90_000) <= ticks,
{
    if ticks > 0 {
        lemma_a_bit_rate_is_bits_over_seconds(size, ticks);
    }
}

/// What a playlist is estimated at: the interleaved files where there are any, which hold
/// the others; else the stream files; and nothing where there is neither.
pub proof fn lemma_what_a_playlist_is_estimated_at(interleaved: u64, plain: u64)
    ensures
        interleaved > 0 ==> estimated(interleaved, plain) == Some(interleaved),
        interleaved == 0 && plain > 0 ==> estimated(interleaved, plain) == Some(plain),
        interleaved == 0 && plain == 0 ==> estimated(interleaved, plain) is None,
{
}

// ---- extra angles ----

/// Whether a clip is on the timeline of an extra angle over the first `n` clips: it is of the
/// main angle or of that one, and none of the later clips that are starts at the same time.
pub open spec fn on_timeline(clips: Seq<ClipSummaryView>, angle: int, n: int, i: int) -> bool {
    &&& 0 <= i < n
    &&& clips[i].angle_index == 0 || clips[i].angle_index == angle
    &&& forall|j: int|
        #![trigger clips[j]]
        i < j < n && (clips[j].angle_index == 0 || clips[j].angle_index == angle)
            ==> clips[j].relative_time_in != clips[i].relative_time_in
}

/// Whether a timeline is that of an angle over the first `n` clips.
spec fn is_line(clips: Seq<ClipSummaryView>, angle: int, n: int, line: Seq<int>) -> bool {
    &&& forall|k: int| #![trigger line[k]] 0 <= k < line.len() ==> on_timeline(clips, angle, n, line[k])
    &&& forall|i: int| #[trigger] on_timeline(clips, angle, n, i) ==> line.contains(i)
    &&& line.no_duplicates()
}

proof fn lemma_slot(clips: Seq<ClipSummaryView>, line: Seq<int>, time: i64, k: int)
    requires
        0 <= k <= line.len(),
    ensures
        k <= slot_from(clips, line, time, k) <= line.len(),
        forall|j: int|
            k <= j < slot_from(clips, line, time, k) ==> clips[#[trigger] line[j]].relative_time_in
                != time,
        slot_from(clips, line, time, k) < line.len() ==> clips[line[slot_from(
            clips,
            line,
            time,
            k,
        )]].relative_time_in == time,
    decreases line.len() - k,
{
    if k < line.len() && clips[line[k]].relative_time_in != time {
        lemma_slot(clips, line, time, k + 1);
    }
}

/// What a clip of a timeline adds to a total.
spec fn weight(clips: Seq<ClipSummaryView>, i: int, angle: Option<int>, lengths: bool) -> int {
    if angle is Some && clips[i].angle_index != angle->Some_0 {
        0
    } else if lengths {
        clips[i].length as int
    } else {
        clip_size(clips[i])
    }
}

/// What the first `n` clips add to a total, those on the timeline of an angle.
spec fn timeline_weights(
    clips: Seq<ClipSummaryView>,
    on: int,
    n: int,
    angle: Option<int>,
    lengths: bool,
) -> Seq<int> {
    Seq::new(
        n as nat,
        |i: int|
            if on_timeline(clips, on, n, i) {
                weight(clips, i, angle, lengths)
            } else {
                0
            },
    )
}

#[verifier::rlimit(50)]
proof fn lemma_line_sums(
    clips: Seq<ClipSummaryView>,
    on: int,
    n: int,
    angle: Option<int>,
    lengths: bool,
)
    requires
        0 <= n <= clips.len(),
    ensures
        ({
            let line = timeline(clips, on, n);
            &&& is_line(clips, on, n, line)
            &&& sum(line.map_values(|i: int| weight(clips, i, angle, lengths))) == sum(
                timeline_weights(clips, on, n, angle, lengths),
            )
        }),
    decreases n,
{
    let line = timeline(clips, on, n);
    let f = |i: int| weight(clips, i, angle, lengths);
    if n == 0 {
        assert(line.map_values(f) =~= Seq::empty());
        assert(timeline_weights(clips, on, n, angle, lengths) =~= Seq::empty());
    } else {
        lemma_line_sums(clips, on, n - 1, angle, lengths);
        let was = timeline(clips, on, n - 1);
        let before = timeline_weights(clips, on, n - 1, angle, lengths);
        let now = timeline_weights(clips, on, n, angle, lengths);
        let c = clips[n - 1];
        if c.angle_index == 0 || c.angle_index == on {
            let k = slot_from(clips, was, c.relative_time_in, 0);
            lemma_slot(clips, was, c.relative_time_in, 0);
            assert(on_timeline(clips, on, n, n - 1));
            if k < was.len() {
                let out = was[k];
                assert(on_timeline(clips, on, n - 1, out));
                assert forall|i: int| 0 <= i < n - 1 && i != out implies (on_timeline(
                    clips,
                    on,
                    n,
                    i,
                ) == on_timeline(clips, on, n - 1, i)) by {
                    if on_timeline(clips, on, n - 1, i) && clips[i].relative_time_in
                        == c.relative_time_in {
                        // Two clips of the timeline would start at the same time.
                        if i < out {
                            assert(clips[out].relative_time_in != clips[i].relative_time_in);
                        } else {
                            assert(clips[i].relative_time_in != clips[out].relative_time_in);
                        }
                    }
                    if on_timeline(clips, on, n, i) {
                        assert(on_timeline(clips, on, n - 1, i));
                    }
                    if on_timeline(clips, on, n - 1, i) {
                        assert(on_timeline(clips, on, n, i));
                    }
                }
                assert(!on_timeline(clips, on, n, out)) by {
                    assert(clips[n - 1].relative_time_in == clips[out].relative_time_in);
                }
                assert(line == was.update(k, n - 1));
                assert(line.map_values(f) =~= was.map_values(f).update(k, f(n - 1)));
                lemma_sum_update(was.map_values(f), k, f(n - 1));
                assert(now =~= before.update(out, 0).push(f(n - 1)));
                lemma_sum_update(before, out, 0);
                lemma_sum_push(before.update(out, 0), f(n - 1));
                assert(before[out] == f(out));
                assert forall|i: int| #[trigger]
                    on_timeline(clips, on, n, i) implies line.contains(i) by {
                    if i == n - 1 {
                        assert(line[k] == i);
                    } else {
                        assert(on_timeline(clips, on, n - 1, i));
                        let a = choose|a: int| 0 <= a < was.len() && was[a] == i;
                        assert(line[a] == i);
                    }
                }
                assert forall|a: int| #![trigger line[a]]
                    0 <= a < line.len() implies on_timeline(clips, on, n, line[a]) by {
                    if a != k {
                        assert(line[a] == was[a]);
                        assert(on_timeline(clips, on, n - 1, was[a]));
                        assert(was[a] != was[k]);
                    }
                }
                assert forall|a: int, b: int|
                    0 <= a < line.len() && 0 <= b < line.len() && a != b implies line[a]
                    != line[b] by {
                    if a != k {
                        assert(on_timeline(clips, on, n - 1, was[a]));
                    }
                    if b != k {
                        assert(on_timeline(clips, on, n - 1, was[b]));
                    }
                }
            } else {
                assert forall|i: int| 0 <= i < n - 1 implies (on_timeline(clips, on, n, i)
                    == on_timeline(clips, on, n - 1, i)) by {
                    if on_timeline(clips, on, n - 1, i) {
                        assert(was.contains(i));
                        let a = choose|a: int| 0 <= a < was.len() && was[a] == i;
                        assert(clips[was[a]].relative_time_in != c.relative_time_in);
                        assert(on_timeline(clips, on, n, i));
                    }
                    if on_timeline(clips, on, n, i) {
                        assert(on_timeline(clips, on, n - 1, i));
                    }
                }
                assert(line == was.push(n - 1));
                assert(line.map_values(f) =~= was.map_values(f).push(f(n - 1)));
                lemma_sum_push(was.map_values(f), f(n - 1));
                assert(now =~= before.push(f(n - 1)));
                lemma_sum_push(before, f(n - 1));
                assert forall|i: int| #[trigger]
                    on_timeline(clips, on, n, i) implies line.contains(i) by {
                    if i == n - 1 {
                        assert(line[was.len() as int] == i);
                    } else {
                        assert(on_timeline(clips, on, n - 1, i));
                        let a = choose|a: int| 0 <= a < was.len() && was[a] == i;
                        assert(line[a] == i);
                    }
                }
                assert forall|a: int| #![trigger line[a]]
                    0 <= a < line.len() implies on_timeline(clips, on, n, line[a]) by {
                    if a < was.len() {
                        assert(line[a] == was[a]);
                        assert(on_timeline(clips, on, n - 1, was[a]));
                    }
                }
                assert forall|a: int, b: int|
                    0 <= a < line.len() && 0 <= b < line.len() && a != b implies line[a]
                    != line[b] by {
                    if a < was.len() {
                        assert(on_timeline(clips, on, n - 1, was[a]));
                    }
                    if b < was.len() {
                        assert(on_timeline(clips, on, n - 1, was[b]));
                    }
                }
            }
        } else {
            assert forall|i: int| #[trigger] on_timeline(clips, on, n, i) implies on_timeline(
                clips,
                on,
                n - 1,
                i,
            ) by {}
            assert forall|i: int| #[trigger] on_timeline(clips, on, n - 1, i) implies on_timeline(
                clips,
                on,
                n,
                i,
            ) by {}
            assert(now =~= before.push(0));
            lemma_sum_push(before, 0);
        }
    }
}

proof fn lemma_line_size_is_sum(
    clips: Seq<ClipSummaryView>,
    line: Seq<int>,
    n: int,
    angle: Option<int>,
)
    requires
        0 <= n <= line.len(),
    ensures
        line_size(clips, line, n, angle) == sum(
            Seq::new(n as nat, |k: int| weight(clips, line[k], angle, false)),
        ),
        angle is Some ==> line_length(clips, line, n, angle->Some_0) == sum(
            Seq::new(n as nat, |k: int| weight(clips, line[k], angle, true)),
        ),
    decreases n,
{
    let sizes = Seq::new(n as nat, |k: int| weight(clips, line[k], angle, false));
    let lengths = Seq::new(n as nat, |k: int| weight(clips, line[k], angle, true));
    if n > 0 {
        lemma_line_size_is_sum(clips, line, n - 1, angle);
        assert(sizes.drop_last() =~= Seq::new(
            (n - 1) as nat,
            |k: int| weight(clips, line[k], angle, false),
        ));
        assert(lengths.drop_last() =~= Seq::new(
            (n - 1) as nat,
            |k: int| weight(clips, line[k], angle, true),
        ));
    }
}

/// The totals of an extra angle are those of the clips that it plays: at every time that a
/// clip of the main angle or of its own starts, the last of them in the playlist. The
/// angle's own length and bytes are those of its own clips among these.
#[verifier::rlimit(50)]
pub proof fn lemma_the_totals_of_an_angle(clips: Seq<ClipSummaryView>, angle: int)
    requires
        clips.len() <= u32::MAX,
    ensures
        ({
            let t = totals_of(clips, angle);
            let n = clips.len();
            &&& t.length == sum(
                Seq::new(
                    n,
                    |i: int|
                        if on_timeline(clips, angle, n as int, i) && clips[i].angle_index
                            == angle {
                            clips[i].length as int
                        } else {
                            0
                        },
                ),
            )
            &&& holds_sum(
                t.packet_size,
                Seq::new(
                    n,
                    |i: int|
                        if on_timeline(clips, angle, n as int, i) && clips[i].angle_index
                            == angle {
                            clip_size(clips[i])
                        } else {
                            0
                        },
                ),
            )
            &&& holds_sum(
                t.timeline_packet_size,
                Seq::new(
                    n,
                    |i: int|
                        if on_timeline(clips, angle, n as int, i) {
                            clip_size(clips[i])
                        } else {
                            0
                        },
                ),
            )
        }),
{
    let n = clips.len() as int;
    let line = timeline(clips, angle, n);
    lemma_line_sums(clips, angle, n, Some(angle), false);
    lemma_line_sums(clips, angle, n, Some(angle), true);
    lemma_line_sums(clips, angle, n, None, false);
    lemma_line_size_is_sum(clips, line, line.len() as int, Some(angle));
    lemma_line_size_is_sum(clips, line, line.len() as int, None);
    assert(line.map_values(|i: int| weight(clips, i, Some(angle), false)) =~= Seq::new(
        line.len(),
        |k: int| weight(clips, line[k], Some(angle), false),
    ));
    assert(line.map_values(|i: int| weight(clips, i, Some(angle), true)) =~= Seq::new(
        line.len(),
        |k: int| weight(clips, line[k], Some(angle), true),
    ));
    assert(line.map_values(|i: int| weight(clips, i, None, false)) =~= Seq::new(
        line.len(),
        |k: int| weight(clips, line[k], None, false),
    ));
    let lengths = Seq::new(
        n as nat,
        |i: int|
            if on_timeline(clips, angle, n, i) && clips[i].angle_index == angle {
                clips[i].length as int
            } else {
                0
            },
    );
    assert(timeline_weights(clips, angle, n, Some(angle), true) =~= lengths);
    let own = Seq::new(
        n as nat,
        |i: int|
            if on_timeline(clips, angle, n, i) && clips[i].angle_index == angle {
                clip_size(clips[i])
            } else {
                0
            },
    );
    let all = Seq::new(
        n as nat,
        |i: int|
            if on_timeline(clips, angle, n, i) {
                clip_size(clips[i])
            } else {
                0
            },
    );
    assert(timeline_weights(clips, angle, n, Some(angle), false) =~= own);
    assert(timeline_weights(clips, angle, n, None, false) =~= all);
    lemma_capped_holds(line_size(clips, line, line.len() as int, Some(angle)), own);
    lemma_capped_holds(line_size(clips, line, line.len() as int, None), all);
    lemma_bounded_sum(lengths);
}

proof fn lemma_bounded_sum(values: Seq<int>)
    requires
        forall|k: int|
            0 <= k < values.len() ==> -0x8000_0000_0000_0000 <= #[trigger] values[k]
                <= 0x8000_0000_0000_0000,
    ensures
        -(values.len() * 0x8000_0000_0000_0000) <= sum(values) <= values.len()
            * 0x8000_0000_0000_0000,
    decreases values.len(),
{
    if values.len() > 0 {
        let rest = values.drop_last();
        assert forall|k: int| 0 <= k < rest.len() implies -0x8000_0000_0000_0000
            <= #[trigger] rest[k] <= 0x8000_0000_0000_0000 by {
            assert(rest[k] == values[k]);
        }
        lemma_bounded_sum(rest);
        assert(values[values.len() - 1] == values.last());
    }
}

/// There are totals for as many angles as the playlist counts, and for 254 where it counts
/// more.
pub proof fn lemma_how_many_angles_have_totals(angle_count: int)
    ensures
        angle_count <= 254 ==> angles_of(angle_count) == angle_count,
        angle_count > 254 ==> angles_of(angle_count) == 254,
{
}

/// A snapshot's bytes are 192 for each packet of every clip, extra angles included.
pub proof fn lemma_snapshot_bytes_are_a_sum(p: PlaylistView)
    requires
        forall|i: int|
            0 <= i < p.clips.len() ==> (#[trigger] p.clips[i]).packet_count * 192 <= u64::MAX,
    ensures
        holds_sum(
            measured_playlist(p).measured_bytes,
            Seq::new(p.clips.len(), |i: int| p.clips[i].packet_count * 192),
        ),
{
    lemma_clip_bytes_are_a_sum(p.clips, p.clips.len() as int);
}

proof fn lemma_clip_bytes_are_a_sum(clips: Seq<ClipView>, n: int)
    requires
        0 <= n <= clips.len(),
        forall|i: int|
            0 <= i < clips.len() ==> (#[trigger] clips[i]).packet_count * 192 <= u64::MAX,
    ensures
        holds_sum(
            clip_bytes(clips, n),
            Seq::new(n as nat, |i: int| clips[i].packet_count * 192),
        ),
        sum(Seq::new(n as nat, |i: int| clips[i].packet_count * 192)) >= 0,
    decreases n,
{
    let bytes = Seq::new(n as nat, |i: int| clips[i].packet_count * 192);
    if n > 0 {
        lemma_clip_bytes_are_a_sum(clips, n - 1);
        assert(bytes.drop_last() =~= Seq::new(
            (n - 1) as nat,
            |i: int| clips[i].packet_count * 192,
        ));
        assert(clips[n - 1].packet_count * 192 <= u64::MAX);
    }
}

} // verus!
