//! What a playlist's tallies and rates are made of: which windows count for what, how often,
//! and what time a rate is taken over.

use vstd::prelude::*;

use super::clpi::ClipView;
use super::credit::{
    counts_for, credited, credited_at, credited_clip, credited_map, credited_playlist,
    credited_stream, rated, rated_playlist, seen, Credit,
};
use super::demux_laws::lemma_window_counts_once_per_clip;
use super::mpls::PlaylistView;
use super::rates::{bit_rate, half_even, lemma_half_even_is_nearest};
use crate::stream::TsStream;

verus! {

// ---- rates ----

/// A bit rate is eight times the bytes over the seconds, of which a tick is the ninety
/// thousandth part, to the nearest whole number. That is for a rate that fits; one that
/// does not is the largest there is.
pub proof fn lemma_a_bit_rate_is_bits_over_seconds(bytes: u64, ticks: i128)
    requires
        ticks > 0,
    ensures
        bit_rate(bytes, ticks) >= 0,
        bit_rate(bytes, ticks) < i64::MAX ==> 2 * (bytes * 8 * 90_000 - bit_rate(bytes, ticks)
            * ticks) <= ticks && 2 * (bit_rate(bytes, ticks) * ticks - bytes * 8 * 90_000)
            <= ticks,
        bit_rate(bytes, ticks) == i64::MAX ==> 2 * bytes * 8 * 90_000 + ticks >= 2 * i64::MAX
            * ticks,
{
    let n = bytes * 720_000;
    let d = ticks as int;
    lemma_half_even_is_nearest(n, d);
    let h = half_even(n, d);
    assert(h >= 0) by (nonlinear_arith)
        requires
            h == super::rates::nearest(n, d),
            n >= 0,
            d > 0,
            super::rates::nearest(n, d) >= n / d,
    ;
    if bit_rate(bytes, ticks) == i64::MAX {
        assert(h * d >= i64::MAX * d) by (nonlinear_arith)
            requires
                h >= i64::MAX,
                d > 0,
        ;
    }
}

// ---- the time that was seen ----

/// The time that a playlist's rates are taken over adds up: what was seen of two lists of
/// clips played one after the other is what was seen of the one and of the other.
pub proof fn lemma_seen_time_adds_up(a: Seq<ClipView>, b: Seq<ClipView>)
    ensures
        seen(a + b, (a + b).len() as int) == seen(a, a.len() as int).wrapping_add(
            seen(b, b.len() as int),
        ),
{
    lemma_seen_of_prefix(a, a + b, a.len() as int);
    lemma_seen_behind(a, b, b.len() as int);
}

proof fn lemma_seen_of_prefix(a: Seq<ClipView>, b: Seq<ClipView>, n: int)
    requires
        forall|k: int| 0 <= k < n ==> a[k] == b[k],
    ensures
        seen(a, n) == seen(b, n),
    decreases n,
{
    if n > 0 {
        lemma_seen_of_prefix(a, b, n - 1);
        assert(a[n - 1] == b[n - 1]);
    }
}

proof fn lemma_seen_behind(a: Seq<ClipView>, b: Seq<ClipView>, n: int)
    requires
        0 <= n <= b.len(),
    ensures
        seen(a + b, a.len() + n) == seen(a, a.len() as int).wrapping_add(seen(b, n)),
    decreases n,
{
    if n == 0 {
        lemma_seen_of_prefix(a, a + b, a.len() as int);
    } else {
        lemma_seen_behind(a, b, n - 1);
        assert((a + b)[a.len() + n - 1] == b[n - 1]);
    }
}

/// What was seen of a lone clip of the main angle is all of what was seen of that clip, and
/// a clip of another angle adds nothing.
pub proof fn lemma_seen_time_of_one_clip(clip: ClipView)
    ensures
        clip.angle_index == 0 ==> seen(seq![clip], 1) == clip.packet_ticks,
        clip.angle_index != 0 ==> seen(seq![clip], 1) == 0,
        seen(Seq::empty(), 0) == 0,
{
    assert(seen(seq![clip], 0) == 0);
    assert(seq![clip][0] == clip);
}

/// The order in which two clips are played makes no difference to the time that was seen.
pub proof fn lemma_seen_time_has_no_order(a: Seq<ClipView>, b: Seq<ClipView>)
    ensures
        seen(a + b, (a + b).len() as int) == seen(b + a, (b + a).len() as int),
{
    lemma_seen_time_adds_up(a, b);
    lemma_seen_time_adds_up(b, a);
}

/// A playlist's stream whose rate varies has its own payload over all the time that was
/// seen of the playlist, for the main presentation and for every extra angle, and everything
/// else of it stays. One whose rate does not vary stays as it is, and so do all of them
/// where nothing was seen.
#[verifier::rlimit(50)]
pub proof fn lemma_rates_are_payload_over_seen_time(p: PlaylistView)
    ensures
        ({
            let r = rated_playlist(p);
            let ticks = seen(p.clips, p.clips.len() as int);
            &&& r.clips == p.clips
            &&& r.name == p.name
            &&& r.playlist_streams == p.playlist_streams
            &&& r.streams.dom() == p.streams.dom()
            &&& r.angle_streams.len() == p.angle_streams.len()
            &&& ticks <= 0 ==> r == p
            &&& forall|pid: u16| #[trigger]
                p.streams.contains_key(pid) ==> is_rated(p.streams[pid], r.streams[pid], ticks)
            &&& forall|a: int, pid: u16|
                #![trigger p.angle_streams[a].contains_key(pid)]
                0 <= a < p.angle_streams.len() && p.angle_streams[a].contains_key(pid) ==> {
                    &&& r.angle_streams[a].contains_key(pid)
                    &&& is_rated(p.angle_streams[a][pid], r.angle_streams[a][pid], ticks)
                }
        }),
{
    assert(rated_playlist(p).streams.dom() =~= p.streams.dom());
    assert forall|s: TsStream, ticks: i128| ticks > 0 implies is_rated(
        s,
        #[trigger] rated(s, ticks),
        ticks,
    ) by {
        lemma_a_bit_rate_is_bits_over_seconds(s.common().payload_bytes, ticks);
    }
}

/// Whether a stream has become another that differs in its rate at most: where it varies,
/// and time was seen, the bits of the payload are the rate times the seconds, but for less
/// than half a bit a second either way.
pub open spec fn is_rated(s: TsStream, r: TsStream, ticks: i128) -> bool {
    let rate = r.common().bit_rate;
    let bits = s.common().payload_bytes * 8;
    &&& r == s.with_common(r.common())
    &&& r.common() == (crate::stream::TsStreamBase { bit_rate: rate, ..s.common() })
    &&& (!s.common().is_vbr || ticks <= 0) ==> r == s
    &&& s.common().is_vbr && ticks > 0 ==> rate >= 0 && (rate < i64::MAX ==> 2 * (bits * 90_000
        - rate * ticks) <= ticks && 2 * (rate * ticks - bits * 90_000) <= ticks)
}

// ---- what a window counts for ----

/// A clip that plays the stream file of a window, at the time of the window or without one,
/// has its bytes and its packets on top, and what was seen of it reaches to the end of the
/// window, or as far as before where that is further. Any other clip stays as it was. No
/// clip changes its place, its name or its times.
pub proof fn lemma_what_a_window_adds_to_a_clip(p: PlaylistView, w: Credit, i: int)
    requires
        0 <= i < p.clips.len(),
        p.clips[i].payload_bytes + w.bytes <= u64::MAX,
        p.clips[i].packet_count + w.packets <= u64::MAX,
    ensures
        credited_playlist(p, w).clips.len() == p.clips.len(),
        ({
            let a = p.clips[i];
            let b = credited_playlist(p, w).clips[i];
            let inside = a.name == w.file && (w.pts == 0 || (a.time_in <= w.pts && w.pts
                <= a.time_out));
            let reach = w.pts + w.interval - a.time_in;
            &&& b.name == a.name
            &&& b.angle_index == a.angle_index
            &&& b.time_in == a.time_in
            &&& b.time_out == a.time_out
            &&& b.relative_time_in == a.relative_time_in
            &&& b.relative_time_out == a.relative_time_out
            &&& b.length == a.length
            &&& b.relative_length == a.relative_length
            &&& !inside ==> b == a
            &&& inside ==> {
                &&& b.payload_bytes == a.payload_bytes + w.bytes
                &&& b.packet_count == a.packet_count + w.packets
                &&& b.packet_ticks >= a.packet_ticks && b.packet_ticks >= reach
                &&& b.packet_ticks == a.packet_ticks || b.packet_ticks == reach
            }
        }),
{
    lemma_window_counts_once_per_clip(p, w);
    assert(credited_playlist(p, w).clips[i] == (if counts_for(p.clips[i], w) {
        credited_clip(p.clips[i], w)
    } else {
        p.clips[i]
    }));
}

/// Whether a clip hands its windows to the streams of an extra angle: its own angle's, where
/// the playlist has streams for it. `None` stands for the main presentation.
pub open spec fn hands_to(clip: ClipView, angles: int, angle: Option<int>) -> bool {
    match angle {
        Some(a) => clip.angle_index == a + 1,
        None => clip.angle_index <= 0 || clip.angle_index > angles,
    }
}

/// How many of the first `n` clips a window counts for, of those that hand to an angle.
pub open spec fn times_counted(
    clips: Seq<ClipView>,
    n: int,
    w: Credit,
    angles: int,
    angle: Option<int>,
) -> int
    decreases n,
{
    if n <= 0 {
        0
    } else {
        times_counted(clips, n - 1, w, angles, angle) + (if hands_to(clips[n - 1], angles, angle)
            && clips[n - 1].name == w.file && (w.pts == 0 || (clips[n - 1].time_in <= w.pts
            && w.pts <= clips[n - 1].time_out)) {
            1int
        } else {
            0
        })
    }
}

/// The streams of the main presentation, or of an extra angle.
pub open spec fn streams_of(p: PlaylistView, angle: Option<int>) -> Map<u16, TsStream> {
    match angle {
        Some(a) => p.angle_streams[a],
        None => p.streams,
    }
}

/// Whether a map of streams has become another by a window that was counted `times`: the
/// stream of the window's PID has the bytes and the packets that often on top, a video
/// stream the interval too, and every other stream is as it was.
pub open spec fn counted_often(
    before: Map<u16, TsStream>,
    after: Map<u16, TsStream>,
    w: Credit,
    times: int,
) -> bool {
    &&& after.dom() == before.dom()
    &&& forall|pid: u16| #[trigger]
        before.contains_key(pid) && (pid != w.pid || times == 0) ==> after[pid] == before[pid]
    &&& before.contains_key(w.pid) ==> {
        let a = before[w.pid].common();
        let b = after[w.pid].common();
        &&& b.pid == a.pid
        &&& b.stream_type == a.stream_type
        &&& b.is_vbr == a.is_vbr
        &&& b.language_code == a.language_code
        &&& b.angle_index == a.angle_index
        &&& b.bit_rate == a.bit_rate
        &&& b.payload_bytes == a.payload_bytes + times * w.bytes
        &&& b.packet_count == a.packet_count + times * w.packets
        &&& a.video() ==> b.packet_ticks == a.packet_ticks + times * w.interval
        &&& !a.video() ==> b.packet_ticks == a.packet_ticks
        &&& a.video() && times > 0 && !(before[w.pid] is Audio) ==> b.active_bit_rate == bit_rate(
            b.payload_bytes,
            b.packet_ticks,
        )
        &&& !a.video() && !(before[w.pid] is Audio) ==> b.active_bit_rate == a.active_bit_rate
    }
}

#[verifier::rlimit(50)]
proof fn lemma_one_more(
    before: Map<u16, TsStream>,
    m: Map<u16, TsStream>,
    w: Credit,
    times: int,
)
    requires
        times >= 0,
        counted_often(before, m, w, times),
        before.contains_key(w.pid) ==> {
            let a = before[w.pid].common();
            &&& a.payload_bytes + (times + 1) * w.bytes <= u64::MAX
            &&& a.packet_count + (times + 1) * w.packets <= u64::MAX
            &&& i128::MIN <= a.packet_ticks + (times + 1) * w.interval <= i128::MAX
        },
        m.contains_key(w.pid) ==> before[w.pid] is Audio == m[w.pid] is Audio,
    ensures
        counted_often(before, credited_map(m, w), w, times + 1),
        m.contains_key(w.pid) ==> before[w.pid] is Audio == credited_map(m, w)[w.pid] is Audio,
{
    assert(credited_map(m, w).dom() =~= before.dom());
    assert((times + 1) * w.bytes == times * w.bytes + w.bytes) by (nonlinear_arith);
    assert((times + 1) * w.packets == times * w.packets + w.packets) by (nonlinear_arith);
    assert((times + 1) * w.interval == times * w.interval + w.interval) by (nonlinear_arith);
}

#[verifier::rlimit(50)]
proof fn lemma_credit_times(p: PlaylistView, n: int, w: Credit, angle: Option<int>)
    requires
        0 <= n <= p.clips.len(),
        angle is Some ==> 0 <= angle->Some_0 < p.angle_streams.len(),
        streams_of(p, angle).contains_key(w.pid) ==> {
            let a = streams_of(p, angle)[w.pid].common();
            &&& a.payload_bytes + p.clips.len() * w.bytes <= u64::MAX
            &&& a.packet_count + p.clips.len() * w.packets <= u64::MAX
            &&& i128::MIN + p.clips.len() * 0x1_0000_0000_0000_0000 <= a.packet_ticks
                <= i128::MAX - p.clips.len() * 0x1_0000_0000_0000_0000
        },
    ensures
        ({
            let q = credited(p, n, w);
            let k = times_counted(p.clips, n, w, p.angle_streams.len() as int, angle);
            &&& 0 <= k <= n
            &&& q.clips.len() == p.clips.len()
            &&& q.angle_streams.len() == p.angle_streams.len()
            &&& forall|i: int| n <= i < p.clips.len() ==> q.clips[i] == p.clips[i]
            &&& counted_often(streams_of(p, angle), streams_of(q, angle), w, k)
            &&& streams_of(p, angle).contains_key(w.pid) ==> streams_of(p, angle)[w.pid] is Audio
                == streams_of(q, angle)[w.pid] is Audio
        }),
    decreases n,
{
    let angles = p.angle_streams.len() as int;
    if n > 0 {
        lemma_credit_times(p, n - 1, w, angle);
        let q = credited(p, n - 1, w);
        let k = times_counted(p.clips, n - 1, w, angles, angle);
        let c = q.clips[n - 1];
        assert(c == p.clips[n - 1]);
        let before = streams_of(p, angle);
        let r = credited_at(q, n - 1, w);
        if counts_for(c, w) && hands_to(c, angles, angle) {
            let len = p.clips.len() as int;
            assert((k + 1) * w.bytes <= len * w.bytes) by (nonlinear_arith)
                requires
                    k + 1 <= len,
            ;
            assert((k + 1) * w.packets <= len * w.packets) by (nonlinear_arith)
                requires
                    k + 1 <= len,
            ;
            let big = 0x1_0000_0000_0000_0000int;
            assert(-(len * big) <= (k + 1) * w.interval <= len * big) by (nonlinear_arith)
                requires
                    0 <= k + 1 <= len,
                    -big <= w.interval <= big,
                    big > 0,
            ;
            lemma_one_more(before, streams_of(q, angle), w, k);
            assert(streams_of(r, angle) == credited_map(streams_of(q, angle), w));
        } else {
            assert(streams_of(r, angle) == streams_of(q, angle));
        }
    }
}

/// A window counts for the streams of the main presentation, and for those of every extra
/// angle, as often as clips of theirs play it: its PID's stream has the bytes and the packets
/// that often on top, and no other stream changes. A clip of an angle hands to that angle's
/// streams and to no others.
pub proof fn lemma_what_a_window_adds_to_the_streams(p: PlaylistView, w: Credit, angle: Option<int>)
    requires
        angle is Some ==> 0 <= angle->Some_0 < p.angle_streams.len(),
        streams_of(p, angle).contains_key(w.pid) ==> {
            let a = streams_of(p, angle)[w.pid].common();
            &&& a.payload_bytes + p.clips.len() * w.bytes <= u64::MAX
            &&& a.packet_count + p.clips.len() * w.packets <= u64::MAX
            &&& i128::MIN + p.clips.len() * 0x1_0000_0000_0000_0000 <= a.packet_ticks
                <= i128::MAX - p.clips.len() * 0x1_0000_0000_0000_0000
        },
    ensures
        counted_often(
            streams_of(p, angle),
            streams_of(credited_playlist(p, w), angle),
            w,
            times_counted(
                p.clips,
                p.clips.len() as int,
                w,
                p.angle_streams.len() as int,
                angle,
            ),
        ),
{
    lemma_credit_times(p, p.clips.len() as int, w, angle);
}

/// A TrueHD stream's own rate leaves out that of its embedded core; the core itself, and all
/// that is no tally, stays.
pub proof fn lemma_a_window_of_an_audio_stream(s: TsStream, w: Credit)
    requires
        s is Audio,
        s.common().audio(),
    ensures
        credited_stream(s, w) is Audio,
        ({
            let a = s->Audio_0;
            let b = credited_stream(s, w)->Audio_0;
            &&& b.core_stream == a.core_stream
            &&& b.channel_count == a.channel_count
            &&& b.sample_rate == a.sample_rate
            &&& a.base.stream_type is Ac3TrueHdAudio && a.core_stream is Some
                ==> b.base.active_bit_rate == a.base.active_bit_rate.wrapping_sub(
                a.core_stream->Some_0.base.bit_rate,
            )
            &&& !(a.base.stream_type is Ac3TrueHdAudio && a.core_stream is Some)
                ==> b.base.active_bit_rate == a.base.active_bit_rate
        }),
{
}

} // verus!
