//! The measured tallies of a scan that still runs.
//!
//! A [`MeasuredSnapshot`] is a copy of what a measurement pass has tallied so far over one
//! stream file. It covers only the playlists that play the file, since only those can have
//! moved. Every number in it is one that the finished scan reports too.

use std::collections::BTreeMap;

use vstd::prelude::*;
use vstd::std_specs::btree::*;
use vstd::string::*;

use super::clpi::ClipView;
use super::mpls::{playlist_views, plays, PlaylistView, TsPlaylistFile};
use crate::maps::{lemma_keys_from_members, pids, sorted_keys};
use crate::primitives::Pid;
use crate::stream::TsStream;

verus! {

/// What a measurement pass has tallied so far.
#[derive(Debug, PartialEq, Eq)]
pub struct MeasuredSnapshot {
    /// The stream file that the pass was reading, upper-cased.
    pub file: String,
    /// The playlists that play the file, in the order they came in.
    pub playlists: Vec<MeasuredPlaylist>,
}

/// One playlist's tallies.
#[derive(Debug, PartialEq, Eq)]
pub struct MeasuredPlaylist {
    /// The playlist's upper-cased file name.
    pub name: String,
    /// The bytes of the packets of every clip, those of the extra angles included.
    pub measured_bytes: u64,
    /// The clips' own tallies, in playlist order.
    pub clips: Vec<MeasuredClip>,
    /// The rates of the presented streams, one entry per PID and camera angle.
    pub streams: Vec<MeasuredStream>,
}

/// One clip's tallies.
#[derive(Debug, PartialEq, Eq)]
pub struct MeasuredClip {
    /// The clip's stream file.
    pub name: String,
    /// The camera angle that the clip plays; `0` is the main one.
    pub angle_index: i32,
    /// The bytes of the clip's packets.
    pub measured_bytes: u64,
}

/// One presented stream's rates.
#[derive(Debug, Clone, Copy, PartialEq, Eq, Structural)]
pub struct MeasuredStream {
    /// The stream's packet identifier.
    pub pid: Pid,
    /// The camera angle whose copy of the stream this is; `0` is the main one.
    pub angle_index: usize,
    /// Bits per second over what the pass has seen.
    pub bitrate: i64,
    /// Bits per second over the stream's own windows.
    pub active_bitrate: i64,
}

/// What a [`MeasuredClip`] holds.
pub struct MeasuredClipView {
    pub name: Seq<char>,
    pub angle_index: i32,
    pub measured_bytes: u64,
}

impl View for MeasuredClip {
    type V = MeasuredClipView;

    open spec fn view(&self) -> MeasuredClipView {
        MeasuredClipView {
            name: self.name@,
            angle_index: self.angle_index,
            measured_bytes: self.measured_bytes,
        }
    }
}

/// What a [`MeasuredPlaylist`] holds.
pub struct MeasuredPlaylistView {
    pub name: Seq<char>,
    pub measured_bytes: u64,
    pub clips: Seq<MeasuredClipView>,
    pub streams: Seq<MeasuredStream>,
}

impl View for MeasuredPlaylist {
    type V = MeasuredPlaylistView;

    open spec fn view(&self) -> MeasuredPlaylistView {
        MeasuredPlaylistView {
            name: self.name@,
            measured_bytes: self.measured_bytes,
            clips: self.clips@.map_values(|c: MeasuredClip| c@),
            streams: self.streams@,
        }
    }
}

/// The bytes of `packets` source packets, each of 192 bytes.
pub open spec fn size_of_packets(packets: u64) -> u64 {
    packets.wrapping_mul(192)
}

/// A clip's entry.
pub open spec fn measured_clip(c: ClipView) -> MeasuredClipView {
    MeasuredClipView {
        name: c.name,
        angle_index: c.angle_index,
        measured_bytes: size_of_packets(c.packet_count),
    }
}

/// The bytes of the first `n` clips, the largest number there is where they are more.
pub open spec fn clip_bytes(clips: Seq<ClipView>, n: int) -> u64
    decreases n,
{
    if n <= 0 {
        0
    } else {
        clip_bytes(clips, n - 1).saturating_add(size_of_packets(clips[n - 1].packet_count))
    }
}

/// A stream's entry.
pub open spec fn measured_stream(m: Map<u16, TsStream>, pid: u16, angle_index: usize) -> MeasuredStream {
    MeasuredStream {
        pid: Pid { raw: pid },
        angle_index,
        bitrate: m[pid].common().bit_rate,
        active_bitrate: m[pid].common().active_bit_rate,
    }
}

/// The entries of one angle's streams, in PID order.
pub open spec fn measured_map(m: Map<u16, TsStream>, angle_index: usize) -> Seq<MeasuredStream> {
    sorted_keys(m.dom()).map_values(|pid: u16| measured_stream(m, pid, angle_index))
}

/// The entries of a playlist's streams: the main ones, then those of its first `n` extra
/// angles.
pub open spec fn measured_streams(p: PlaylistView, n: int) -> Seq<MeasuredStream>
    decreases n,
{
    if n <= 0 {
        measured_map(p.streams, 0)
    } else {
        measured_streams(p, n - 1) + measured_map(p.angle_streams[n - 1], n as usize)
    }
}

/// A playlist's entry.
pub open spec fn measured_playlist(p: PlaylistView) -> MeasuredPlaylistView {
    MeasuredPlaylistView {
        name: p.name,
        measured_bytes: clip_bytes(p.clips, p.clips.len() as int),
        clips: p.clips.map_values(|c: ClipView| measured_clip(c)),
        streams: measured_streams(p, p.angle_streams.len() as int),
    }
}

/// The entries of those of the first `n` playlists that play the file.
pub open spec fn snapshot_of(file: Seq<char>, playlists: Seq<PlaylistView>, n: int) -> Seq<
    MeasuredPlaylistView,
>
    decreases n,
{
    if n <= 0 {
        Seq::empty()
    } else if plays(playlists[n - 1], file) {
        snapshot_of(file, playlists, n - 1).push(measured_playlist(playlists[n - 1]))
    } else {
        snapshot_of(file, playlists, n - 1)
    }
}

/// The bytes of `packets` source packets.
pub fn packet_size(packets: u64) -> (r: u64)
    ensures
        r == size_of_packets(packets),
{
    packets.wrapping_mul(192)
}

/// Appends the entries of one angle's streams.
fn add_streams(out: &mut Vec<MeasuredStream>, m: &BTreeMap<u16, TsStream>, angle_index: usize)
    ensures
        final(out)@ == old(out)@ + measured_map(m@, angle_index),
{
    broadcast use group_btree_axioms;

    let ghost was = out@;
    let keys = pids(m);
    proof {
        lemma_keys_from_members(m@.dom(), 0);
    }
    let mut i: usize = 0;
    while i < keys.len()
        invariant
            i <= keys@.len(),
            keys@ == sorted_keys(m@.dom()),
            forall|a: int| 0 <= a < keys@.len() ==> m@.dom().contains(#[trigger] keys@[a]),
            out@ == was + keys@.subrange(0, i as int).map_values(
                |pid: u16| measured_stream(m@, pid, angle_index),
            ),
        decreases keys@.len() - i,
    {
        let pid: u16 = keys[i];
        assert(m@.dom().contains(keys@[i as int]));
        if let Some(stream) = m.get(&pid) {
            let ghost before = out@;
            out.push(
                MeasuredStream {
                    pid: Pid::new(pid),
                    angle_index,
                    bitrate: stream.base().bit_rate,
                    active_bitrate: stream.base().active_bit_rate,
                },
            );
            proof {
                let f = |pid: u16| measured_stream(m@, pid, angle_index);
                assert(keys@.subrange(0, i + 1) =~= keys@.subrange(0, i as int).push(pid));
                assert(keys@.subrange(0, i + 1).map_values(f) =~= keys@.subrange(
                    0,
                    i as int,
                ).map_values(f).push(f(pid)));
                assert(out@ =~= was + keys@.subrange(0, i + 1).map_values(f));
            }
        }
        i = i + 1;
    }
    proof {
        assert(keys@.subrange(0, keys@.len() as int) =~= keys@);
    }
}

/// A playlist's entry, or `None` where it does not play the file.
fn playlist_tallies(file: &str, playlist: &TsPlaylistFile) -> (r: Option<MeasuredPlaylist>)
    ensures
        match r {
            Some(entry) => plays(playlist@, file@) && entry@ == measured_playlist(playlist@),
            None => !plays(playlist@, file@),
        },
{
    if !playlist.plays_file(file) {
        return None;
    }
    let ghost p = playlist@;
    let mut clips: Vec<MeasuredClip> = Vec::new();
    let mut measured_bytes: u64 = 0;
    let mut i: usize = 0;
    while i < playlist.stream_clips.len()
        invariant
            i <= playlist.stream_clips@.len(),
            p == playlist@,
            clips@.len() == i,
            forall|k: int| 0 <= k < i ==> (#[trigger] clips@[k])@ == measured_clip(p.clips[k]),
            measured_bytes == clip_bytes(p.clips, i as int),
        decreases playlist.stream_clips@.len() - i,
    {
        let clip = &playlist.stream_clips[i];
        assert(p.clips[i as int] == clip@);
        let size: u64 = packet_size(clip.packet_count);
        clips.push(
            MeasuredClip {
                name: clip.name.clone(),
                angle_index: clip.angle_index,
                measured_bytes: size,
            },
        );
        measured_bytes = measured_bytes.saturating_add(size);
        i = i + 1;
    }
    let mut streams: Vec<MeasuredStream> = Vec::new();
    add_streams(&mut streams, &playlist.streams, 0);
    proof {
        assert(streams@ =~= measured_streams(p, 0));
    }
    let mut a: usize = 0;
    while a < playlist.angle_streams.len()
        invariant
            a <= playlist.angle_streams@.len(),
            p == playlist@,
            streams@ == measured_streams(p, a as int),
        decreases playlist.angle_streams@.len() - a,
    {
        assert(p.angle_streams[a as int] == playlist.angle_streams@[a as int]@);
        add_streams(&mut streams, &playlist.angle_streams[a], a + 1);
        a = a + 1;
    }
    let entry = MeasuredPlaylist { name: playlist.name.clone(), measured_bytes, clips, streams };
    proof {
        assert(entry@.clips =~= p.clips.map_values(|c: ClipView| measured_clip(c)));
    }
    Some(entry)
}

/// The tallies of `playlists` over the stream file `file`, which is compared to the clip
/// names as it stands.
pub fn snapshot(file: &str, playlists: &Vec<TsPlaylistFile>) -> (r: MeasuredSnapshot)
    ensures
        r.file@ == file@,
        r.playlists@.map_values(|p: MeasuredPlaylist| p@) == snapshot_of(
            file@,
            playlist_views(playlists@),
            playlists@.len() as int,
        ),
{
    let ghost all = playlist_views(playlists@);
    let mut out: Vec<MeasuredPlaylist> = Vec::new();
    let mut i: usize = 0;
    proof {
        assert(out@.map_values(|p: MeasuredPlaylist| p@) =~= Seq::empty());
    }
    while i < playlists.len()
        invariant
            i <= playlists@.len(),
            all == playlist_views(playlists@),
            out@.map_values(|p: MeasuredPlaylist| p@) == snapshot_of(file@, all, i as int),
        decreases playlists@.len() - i,
    {
        assert(all[i as int] == playlists@[i as int]@);
        if let Some(entry) = playlist_tallies(file, &playlists[i]) {
            let ghost before = out@.map_values(|p: MeasuredPlaylist| p@);
            let ghost added = entry@;
            out.push(entry);
            proof {
                assert(out@.map_values(|p: MeasuredPlaylist| p@) =~= before.push(added));
            }
        }
        i = i + 1;
    }
    MeasuredSnapshot { file: file.to_owned(), playlists: out }
}

/// A snapshot covers a playlist if and only if the playlist plays the file.
pub proof fn lemma_snapshot_covers_what_plays(
    file: Seq<char>,
    playlists: Seq<PlaylistView>,
    n: int,
)
    requires
        0 <= n <= playlists.len(),
    ensures
        forall|i: int|
            0 <= i < n && plays(#[trigger] playlists[i], file) ==> snapshot_of(
                file,
                playlists,
                n,
            ).contains(measured_playlist(playlists[i])),
        forall|e: MeasuredPlaylistView|
            snapshot_of(file, playlists, n).contains(e) ==> exists|i: int|
                0 <= i < n && plays(playlists[i], file) && e == measured_playlist(
                    #[trigger] playlists[i],
                ),
    decreases n,
{
    if n > 0 {
        lemma_snapshot_covers_what_plays(file, playlists, n - 1);
        let before = snapshot_of(file, playlists, n - 1);
        let now = snapshot_of(file, playlists, n);
        if plays(playlists[n - 1], file) {
            assert(now == before.push(measured_playlist(playlists[n - 1])));
            assert(now[before.len() as int] == measured_playlist(playlists[n - 1]));
            assert forall|e: MeasuredPlaylistView| before.contains(e) implies now.contains(e) by {
                let k = choose|k: int| 0 <= k < before.len() && before[k] == e;
                assert(now[k] == e);
            }
            assert forall|e: MeasuredPlaylistView| now.contains(e) implies exists|i: int|
                0 <= i < n && plays(playlists[i], file) && e == measured_playlist(
                    #[trigger] playlists[i],
                ) by {
                let k = choose|k: int| 0 <= k < now.len() && now[k] == e;
                if k < before.len() {
                    assert(before[k] == e);
                    assert(before.contains(e));
                    let i = choose|i: int|
                        0 <= i < n - 1 && plays(playlists[i], file) && e == measured_playlist(
                            #[trigger] playlists[i],
                        );
                    assert(plays(playlists[i], file));
                } else {
                    assert(e == measured_playlist(playlists[n - 1]));
                }
            }
        }
    }
}

/// A stream is entered once for each angle that presents it: no two entries of a playlist
/// have both the PID and the angle.
pub proof fn lemma_one_entry_per_stream_and_angle(p: PlaylistView, n: int)
    requires
        0 <= n <= p.angle_streams.len(),
        n <= usize::MAX,
    ensures
        forall|i: int|
            0 <= i < measured_streams(p, n).len() ==> (#[trigger] measured_streams(p, n)[
                i
            ]).angle_index <= n,
        forall|i: int, j: int|
            0 <= i < j < measured_streams(p, n).len() ==> (#[trigger] measured_streams(p, n)[
                i
            ]).pid != (#[trigger] measured_streams(p, n)[j]).pid || measured_streams(p, n)[
                i
            ].angle_index != measured_streams(p, n)[j].angle_index,
    decreases n,
{
    let all = measured_streams(p, n);
    if n == 0 {
        lemma_keys_from_members(p.streams.dom(), 0);
    } else {
        lemma_one_entry_per_stream_and_angle(p, n - 1);
        let before = measured_streams(p, n - 1);
        let m = p.angle_streams[n - 1];
        lemma_keys_from_members(m.dom(), 0);
        let added = measured_map(m, n as usize);
        assert(all == before + added);
        assert forall|i: int, j: int| 0 <= i < j < all.len() implies (#[trigger] all[i]).pid != (
        #[trigger] all[j]).pid || all[i].angle_index != all[j].angle_index by {
            if j >= before.len() {
                assert(all[j] == added[j - before.len()]);
                if i >= before.len() {
                    assert(all[i] == added[i - before.len()]);
                }
            }
        }
    }
}

} // verus!
