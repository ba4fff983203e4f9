//! What a measured window adds to the playlists that play its stream file.

use std::collections::BTreeMap;

use vstd::prelude::*;
use vstd::std_specs::btree::*;
use vstd::string::*;

use super::clpi::{clip_views, ClipView, TsStreamClip};
use super::mpls::{PlaylistView, TsPlaylistFile};
use super::rates::{bit_rate, rate};
use crate::maps::{lemma_keys_from_members, pids, sorted_keys};
use crate::stream::{TsAudioStream, TsStream, TsStreamBase, TsStreamType};
use crate::text::same;

verus! {

/// One PID's window of a stream file.
pub struct Credit {
    /// The stream file.
    pub file: Seq<char>,
    /// The PID.
    pub pid: u16,
    /// The window's payload bytes.
    pub bytes: u64,
    /// The window's transport packets.
    pub packets: u64,
    /// The timestamp that closes it.
    pub pts: i64,
    /// The timestamp's distance from the previous one.
    pub interval: i64,
}

/// A stream's tallies with a window more; a video stream's rate is that over its own
/// windows.
pub open spec fn credited_base(b: TsStreamBase, w: Credit) -> TsStreamBase {
    let counted = TsStreamBase {
        payload_bytes: b.payload_bytes.wrapping_add(w.bytes),
        packet_count: b.packet_count.wrapping_add(w.packets),
        ..b
    };
    if b.video() {
        let ticks = b.packet_ticks.wrapping_add(w.interval as i128);
        TsStreamBase {
            packet_ticks: ticks,
            active_bit_rate: bit_rate(counted.payload_bytes, ticks),
            ..counted
        }
    } else {
        counted
    }
}

/// A presented stream with a window more. A TrueHD stream's own rate leaves out that of
/// its embedded core, which every window takes off once.
pub open spec fn credited_stream(s: TsStream, w: Credit) -> TsStream {
    let counted = s.with_common(credited_base(s.common(), w));
    match counted {
        TsStream::Audio(a) => match a.core_stream {
            Some(core) => if a.base.stream_type is Ac3TrueHdAudio {
                TsStream::Audio(
                    TsAudioStream {
                        base: TsStreamBase {
                            active_bit_rate: a.base.active_bit_rate.wrapping_sub(
                                core.base.bit_rate,
                            ),
                            ..a.base
                        },
                        ..a
                    },
                )
            } else {
                counted
            },
            None => counted,
        },
        _ => counted,
    }
}

/// A stream map with a window more of one of its streams.
pub open spec fn credited_map(m: Map<u16, TsStream>, w: Credit) -> Map<u16, TsStream> {
    if m.contains_key(w.pid) {
        m.insert(w.pid, credited_stream(m[w.pid], w))
    } else {
        m
    }
}

/// Whether a window counts for a clip: the clip plays its stream file, and the timestamp
/// lies within the clip or is none.
pub open spec fn counts_for(c: ClipView, w: Credit) -> bool {
    c.name == w.file && (w.pts == 0 || c.time_in <= w.pts <= c.time_out)
}

/// A clip with a window more: what has been seen of it reaches to the end of the window,
/// where that is further than before.
pub open spec fn credited_clip(c: ClipView, w: Credit) -> ClipView {
    let reach = (w.pts + w.interval - c.time_in) as i128;
    ClipView {
        payload_bytes: c.payload_bytes.wrapping_add(w.bytes),
        packet_count: c.packet_count.wrapping_add(w.packets),
        packet_ticks: if reach > c.packet_ticks {
            reach
        } else {
            c.packet_ticks
        },
        ..c
    }
}

/// A playlist with a window more of its `i`th clip. The stream that gets it is that of
/// the clip's angle, and the main one where the angle has no streams of its own.
pub open spec fn credited_at(p: PlaylistView, i: int, w: Credit) -> PlaylistView {
    let c = p.clips[i];
    if counts_for(c, w) {
        let clips = p.clips.update(i, credited_clip(c, w));
        if 0 < c.angle_index <= p.angle_streams.len() {
            let k = c.angle_index - 1;
            PlaylistView {
                clips,
                angle_streams: p.angle_streams.update(k, credited_map(p.angle_streams[k], w)),
                ..p
            }
        } else {
            PlaylistView { clips, streams: credited_map(p.streams, w), ..p }
        }
    } else {
        p
    }
}

/// A playlist with a window more of its first `n` clips, one after the other.
pub open spec fn credited(p: PlaylistView, n: int, w: Credit) -> PlaylistView
    decreases n,
{
    if n <= 0 {
        p
    } else {
        credited_at(credited(p, n - 1, w), n - 1, w)
    }
}

/// A playlist with a window more of all its clips.
pub open spec fn credited_playlist(p: PlaylistView, w: Credit) -> PlaylistView {
    credited(p, p.clips.len() as int, w)
}

/// What the packet scan has seen of the first `n` clips, those of the main angle.
pub open spec fn seen(clips: Seq<ClipView>, n: int) -> i128
    decreases n,
{
    if n <= 0 {
        0
    } else if clips[n - 1].angle_index == 0 {
        seen(clips, n - 1).wrapping_add(clips[n - 1].packet_ticks)
    } else {
        seen(clips, n - 1)
    }
}

/// A stream whose rate varies has its payload over what was seen; any other keeps its
/// declared rate.
pub open spec fn rated(s: TsStream, ticks: i128) -> TsStream {
    if s.common().is_vbr {
        s.with_common(
            TsStreamBase {
                bit_rate: bit_rate(s.common().payload_bytes, ticks),
                ..s.common()
            },
        )
    } else {
        s
    }
}

/// A stream map with the rates of what was seen.
pub open spec fn rated_map(m: Map<u16, TsStream>, ticks: i128) -> Map<u16, TsStream> {
    m.map_values(|s: TsStream| rated(s, ticks))
}

/// A playlist with the rates of what was seen; nothing seen leaves them as they were.
pub open spec fn rated_playlist(p: PlaylistView) -> PlaylistView {
    let ticks = seen(p.clips, p.clips.len() as int);
    if ticks > 0 {
        PlaylistView {
            streams: rated_map(p.streams, ticks),
            angle_streams: p.angle_streams.map_values(
                |m: Map<u16, TsStream>| rated_map(m, ticks),
            ),
            ..p
        }
    } else {
        p
    }
}

/// Adds a window to a presented stream.
fn credit_stream(stream: &mut TsStream, bytes: u64, packets: u64, interval: i64, Ghost(w): Ghost<
    Credit,
>)
    requires
        w.bytes == bytes,
        w.packets == packets,
        w.interval == interval,
    ensures
        *final(stream) == credited_stream(*old(stream), w),
{
    let mut base = *stream.base();
    base.payload_bytes = base.payload_bytes.wrapping_add(bytes);
    base.packet_count = base.packet_count.wrapping_add(packets);
    if base.is_video_stream() {
        base.packet_ticks = base.packet_ticks.wrapping_add(interval as i128);
        base.active_bit_rate = rate(base.payload_bytes, base.packet_ticks);
    }
    stream.set_base(base);
    if let TsStream::Audio(audio) = stream {
        if let Some(core) = &audio.core_stream {
            if matches!(audio.base.stream_type, TsStreamType::Ac3TrueHdAudio) {
                let active: i64 = audio.base.active_bit_rate.wrapping_sub(core.base.bit_rate);
                audio.base.active_bit_rate = active;
            }
        }
    }
}

/// Adds a window to one of a map's streams, where the map has it.
fn credit_map(
    m: &mut BTreeMap<u16, TsStream>,
    pid: u16,
    bytes: u64,
    packets: u64,
    interval: i64,
    Ghost(w): Ghost<Credit>,
)
    requires
        w.pid == pid,
        w.bytes == bytes,
        w.packets == packets,
        w.interval == interval,
    ensures
        final(m)@ == credited_map(old(m)@, w),
{
    broadcast use group_btree_axioms;

    let ghost was = m@;
    if let Some(mut stream) = m.remove(&pid) {
        credit_stream(&mut stream, bytes, packets, interval, Ghost(w));
        m.insert(pid, stream);
        proof {
            assert(m@ =~= credited_map(was, w));
        }
    } else {
        proof {
            assert(m@ =~= was);
        }
    }
}

/// Adds a window of the stream file `file` to a playlist.
pub fn credit_playlist(
    p: &mut TsPlaylistFile,
    file: &str,
    pid: u16,
    bytes: u64,
    packets: u64,
    pts: i64,
    interval: i64,
)
    ensures
        final(p)@ == credited_playlist(
            old(p)@,
            Credit { file: file@, pid, bytes, packets, pts, interval },
        ),
{
    let ghost w = Credit { file: file@, pid, bytes, packets, pts, interval };
    let ghost was = p@;
    let n: usize = p.stream_clips.len();
    let mut i: usize = 0;
    while i < n
        invariant
            i <= n,
            n == p.stream_clips@.len(),
            w == (Credit { file: file@, pid, bytes, packets, pts, interval }),
            p@ == credited(was, i as int, w),
        decreases n - i,
    {
        let ghost before = p@;
        let ghost clip = p.stream_clips@[i as int]@;
        assert(clip == before.clips[i as int]);
        let c = &p.stream_clips[i];
        let angle: i32 = c.angle_index;
        let counts = same(c.name.as_str(), file) && (pts == 0 || (c.time_in <= pts && pts
            <= c.time_out));
        if counts {
            let reach: i128 = pts as i128 + interval as i128 - c.time_in as i128;
            let payload: u64 = c.payload_bytes.wrapping_add(bytes);
            let count: u64 = c.packet_count.wrapping_add(packets);
            let ticks: i128 = if reach > c.packet_ticks {
                reach
            } else {
                c.packet_ticks
            };
            p.stream_clips[i].payload_bytes = payload;
            p.stream_clips[i].packet_count = count;
            p.stream_clips[i].packet_ticks = ticks;
            proof {
                assert(p@.clips =~= before.clips.update(i as int, credited_clip(clip, w)));
            }
            if angle > 0 && angle as u64 <= p.angle_streams.len() as u64 {
                let k: usize = (angle - 1) as usize;
                let ghost maps = p@.angle_streams;
                credit_map(&mut p.angle_streams[k], pid, bytes, packets, interval, Ghost(w));
                proof {
                    assert(p@.angle_streams =~= maps.update(k as int, credited_map(maps[k as int], w)));
                }
            } else {
                credit_map(&mut p.streams, pid, bytes, packets, interval, Ghost(w));
            }
        }
        proof {
            assert(p@ == credited_at(before, i as int, w));
        }
        i = i + 1;
    }
}

/// Gives every stream of a map whose rate varies its payload over `ticks`.
fn rate_map(m: &mut BTreeMap<u16, TsStream>, ticks: i128)
    ensures
        final(m)@ == rated_map(old(m)@, ticks),
{
    broadcast use group_btree_axioms;

    let keys = pids(m);
    let ghost was = m@;
    let mut i: usize = 0;
    proof {
        lemma_keys_from_members(was.dom(), 0);
    }
    while i < keys.len()
        invariant
            i <= keys@.len(),
            keys@ == sorted_keys(was.dom()),
            forall|a: int, b: int| 0 <= a < b < keys@.len() ==> keys@[a] < keys@[b],
            forall|a: int| 0 <= a < keys@.len() ==> was.contains_key(#[trigger] keys@[a]),
            m@.dom() == was.dom(),
            forall|k: int| 0 <= k < i ==> m@[#[trigger] keys@[k]] == rated(was[keys@[k]], ticks),
            forall|k: int| i <= k < keys@.len() ==> m@[#[trigger] keys@[k]] == was[keys@[k]],
        decreases keys@.len() - i,
    {
        let pid: u16 = keys[i];
        assert(was.contains_key(keys@[i as int]));
        assert(m@.contains_key(pid));
        let ghost before = m@;
        if let Some(mut stream) = m.remove(&pid) {
            if stream.base().is_vbr {
                let mut base = *stream.base();
                base.bit_rate = rate(base.payload_bytes, ticks);
                stream.set_base(base);
            }
            m.insert(pid, stream);
        }
        proof {
            assert(m@ =~= before.insert(pid, rated(was[pid], ticks)));
            assert(m@.dom() =~= was.dom());
        }
        i = i + 1;
    }
    proof {
        assert forall|pid: u16| #[trigger] was.contains_key(pid) implies m@[pid] == rated(
            was[pid],
            ticks,
        ) by {
            assert(was.dom().contains(pid));
            assert(keys@.contains(pid));
        }
        assert(m@ =~= rated_map(was, ticks));
    }
}

/// What the packet scan has seen of the clips of the main angle.
fn seen_ticks(clips: &Vec<TsStreamClip>) -> (r: i128)
    ensures
        r == seen(clip_views(clips@), clips@.len() as int),
{
    let mut ticks: i128 = 0;
    let mut i: usize = 0;
    while i < clips.len()
        invariant
            i <= clips@.len(),
            ticks == seen(clip_views(clips@), i as int),
        decreases clips@.len() - i,
    {
        assert(clip_views(clips@)[i as int] == clips@[i as int]@);
        if clips[i].angle_index == 0 {
            ticks = ticks.wrapping_add(clips[i].packet_ticks);
        }
        i = i + 1;
    }
    ticks
}

/// Gives a playlist's streams the rates of what was seen.
pub fn rate_playlist(p: &mut TsPlaylistFile)
    ensures
        final(p)@ == rated_playlist(old(p)@),
{
    let ticks: i128 = seen_ticks(&p.stream_clips);
    if ticks > 0 {
        let ghost was = p@;
        rate_map(&mut p.streams, ticks);
        let n: usize = p.angle_streams.len();
        let mut i: usize = 0;
        while i < n
            invariant
                i <= n,
                n == p.angle_streams@.len(),
                n == was.angle_streams.len(),
                p@ == (PlaylistView {
                    streams: rated_map(was.streams, ticks),
                    angle_streams: p@.angle_streams,
                    ..was
                }),
                forall|k: int|
                    0 <= k < i ==> #[trigger] p@.angle_streams[k] == rated_map(
                        was.angle_streams[k],
                        ticks,
                    ),
                forall|k: int|
                    i <= k < n ==> #[trigger] p@.angle_streams[k] == was.angle_streams[k],
            decreases n - i,
        {
            let ghost maps = p@.angle_streams;
            assert(maps[i as int] == was.angle_streams[i as int]);
            rate_map(&mut p.angle_streams[i], ticks);
            proof {
                assert(p@.angle_streams =~= maps.update(
                    i as int,
                    rated_map(was.angle_streams[i as int], ticks),
                ));
            }
            i = i + 1;
        }
        proof {
            assert(p@.angle_streams =~= was.angle_streams.map_values(
                |m: Map<u16, TsStream>| rated_map(m, ticks),
            ));
        }
    }
}

} // verus!
