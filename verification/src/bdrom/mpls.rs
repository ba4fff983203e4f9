//! Playlist (`*.mpls`) parser.
//!
//! A playlist sequences clips into a presentation: each play item names a stream file,
//! its in and out times, its extra camera angles, and the streams to present. A table
//! of marks behind the items gives the chapters.
//!
//! A play item ends at its start plus its declared length plus two, however far the
//! walk of its entries went. Bit 31 of a presentation time is not part of it. The 45 kHz
//! times of the file are doubled to ticks.

use std::collections::BTreeMap;

use vstd::prelude::*;
use vstd::std_specs::btree::*;
use vstd::string::*;

use super::clpi::{blank_clip, clip_views, labelled, ClipView, Ratio, TsStreamClip};
use super::{
    ascii, build_coded_stream, byte, coded_stream, gives, offset, rd16, rd32, rd8, rd_text, sat,
    u16_be, u32_be,
};
use crate::error::{BdError, Failure};
use crate::primitives::Pid;
use crate::stream::{type_of_code, TsStream, TsStreamType};
use crate::text::{same, to_ascii_uppercase, upper};

verus! {

/// How many ticks one second has.
pub const TICKS_PER_SECOND: i64 = 90_000;

/// The known type magics of a playlist.
pub open spec fn playlist_magic(t: Seq<char>) -> bool {
    t == "MPLS0100"@ || t == "MPLS0200"@ || t == "MPLS0240"@ || t == "MPLS0300"@
}

/// The length of what a clip list presents: that of its main clips.
pub open spec fn total(clips: Seq<ClipView>) -> int
    decreases clips.len(),
{
    if clips.len() == 0 {
        0
    } else {
        total(clips.drop_last()) + (if clips.last().angle_index == 0 {
            clips.last().length as int
        } else {
            0
        })
    }
}

/// The presentation time at `off`, in ticks.
pub open spec fn rd_time(d: Seq<u8>, off: int) -> Option<i64> {
    match rd32(d, off) {
        Some(raw) => Some((2 * (raw as int % 0x8000_0000)) as i64),
        None => None,
    }
}

/// The extension of the stream file that a clip with this codec id lives in.
pub open spec fn extension(codec_id: Seq<char>) -> Seq<char> {
    if codec_id == "FMTS"@ {
        ".FMTS"@
    } else {
        ".M2TS"@
    }
}

/// The stream that the coding info at `coding` describes: none for the dependent view
/// of a 3D pair, none for an unknown type. There is no aspect ratio in a playlist.
pub open spec fn playlist_stream(d: Seq<u8>, coding: int, stream_type: TsStreamType) -> Option<
    Option<TsStream>,
> {
    if stream_type is MvcVideo {
        Some(None)
    } else {
        coded_stream(d, coding, stream_type, None)
    }
}

/// The PID of the stream entry whose header starts at `at`: where it stands depends on
/// the header's type, and an unknown type has none.
pub open spec fn entry_pid(d: Seq<u8>, at: int, header_type: u8) -> Option<u16> {
    match header_type {
        1 => rd16(d, at + 1),
        2 => rd16(d, at + 3),
        3 | 4 => rd16(d, at + 2),
        _ => Some(0u16),
    }
}

/// The stream of the entry at `pos`, if it has one, and where the entry ends; `None`
/// where the input ends within it.
pub open spec fn playlist_entry(d: Seq<u8>, pos: int) -> Option<(Option<TsStream>, int)> {
    match (rd8(d, pos), rd8(d, pos + 1)) {
        (Some(header_length), Some(header_type)) => {
            let length_pos = pos + 1 + header_length;
            match (entry_pid(d, pos + 1, header_type), rd8(d, length_pos), rd8(d, length_pos + 1)) {
                (Some(pid), Some(length), Some(code)) => {
                    let stream_type = type_of_code(code);
                    match playlist_stream(d, length_pos + 2, stream_type) {
                        Some(stream) => Some(
                            (
                                match stream {
                                    Some(s) => Some(labelled(s, pid, stream_type)),
                                    None => None,
                                },
                                length_pos + 1 + length,
                            ),
                        ),
                        None => None,
                    }
                },
                _ => None,
            }
        },
        _ => None,
    }
}

/// The declared streams after an entry: a PID not seen before is always taken, one seen
/// before only from a clip that is not negligibly short.
pub open spec fn declare(m: Map<u16, TsStream>, stream: Option<TsStream>, lasting: bool) -> Map<
    u16,
    TsStream,
> {
    match stream {
        Some(s) => if !m.contains_key(s.common().pid.raw) || lasting {
            m.insert(s.common().pid.raw, s)
        } else {
            m
        },
        None => m,
    }
}

/// Where the comb-info block at `pos` ends: a count, a reserved byte, the references,
/// and a pad byte where their number is odd.
pub open spec fn after_comb(d: Seq<u8>, pos: int) -> Option<int> {
    match rd8(d, pos) {
        Some(count) => Some(pos + 2 + count + count % 2),
        None => None,
    }
}

/// Where the `n` comb-info blocks from `pos` on end.
pub open spec fn after_combs(d: Seq<u8>, pos: int, n: nat) -> Option<int>
    decreases n,
{
    if n == 0 {
        Some(pos)
    } else {
        match after_comb(d, pos) {
            Some(next) => after_combs(d, next, (n - 1) as nat),
            None => None,
        }
    }
}

/// What one section of a Stream-Number table is like: how many comb-info blocks follow
/// each entry, and whether its entries declare streams.
pub struct Section {
    pub combs: nat,
    pub declares: bool,
}

/// The declared streams after the `n` entries of a section from `pos` on, and where they
/// end.
pub open spec fn section(
    d: Seq<u8>,
    pos: int,
    n: nat,
    s: Section,
    lasting: bool,
    m: Map<u16, TsStream>,
) -> Option<(Map<u16, TsStream>, int)>
    decreases n,
{
    if n == 0 {
        Some((m, pos))
    } else {
        match playlist_entry(d, pos) {
            Some((stream, next)) => match after_combs(d, next, s.combs) {
                Some(after) => section(
                    d,
                    after,
                    (n - 1) as nat,
                    s,
                    lasting,
                    if s.declares {
                        declare(m, stream, lasting)
                    } else {
                        m
                    },
                ),
                None => None,
            },
            None => None,
        }
    }
}

/// The sections of a Stream-Number table in the order they stand in, each with the
/// place of its entry count: video, audio, presentation graphics, the picture-in-picture
/// graphics among them, interactive graphics, secondary audio, secondary video.
pub open spec fn table_sections() -> Seq<(int, Section)> {
    seq![
        (4int, Section { combs: 0, declares: true }),
        (5int, Section { combs: 0, declares: true }),
        (6int, Section { combs: 0, declares: true }),
        (10int, Section { combs: 0, declares: false }),
        (7int, Section { combs: 0, declares: true }),
        (8int, Section { combs: 1, declares: true }),
        (9int, Section { combs: 2, declares: true }),
    ]
}

/// The declared streams after the `k`th section, whose entries start at `pos`, of the
/// Stream-Number table at `at`, and where that section ends.
pub open spec fn nth_section(
    d: Seq<u8>,
    at: int,
    k: int,
    pos: int,
    lasting: bool,
    m: Map<u16, TsStream>,
) -> Option<(Map<u16, TsStream>, int)> {
    let (place, s) = table_sections()[k];
    match rd8(d, at + place) {
        Some(count) => section(d, pos, count as nat, s, lasting, m),
        None => None,
    }
}

/// The declared streams after the sections from the `k`th on, whose entries start at
/// `pos`, of the Stream-Number table at `at`.
pub open spec fn sections_from(
    d: Seq<u8>,
    at: int,
    k: int,
    pos: int,
    lasting: bool,
    m: Map<u16, TsStream>,
) -> Option<Map<u16, TsStream>>
    decreases 7 - k,
{
    if k >= 7 {
        Some(m)
    } else {
        match nth_section(d, at, k, pos, lasting, m) {
            Some((streams, next)) => sections_from(d, at, k + 1, next, lasting, streams),
            None => None,
        }
    }
}

/// The declared streams after the Stream-Number table at `at`: its length, which is read
/// and not used, two reserved bytes, the seven counts, five reserved bytes, the entries.
/// All the counts are there even where an entry before them is not.
pub open spec fn stream_table(d: Seq<u8>, at: int, lasting: bool, m: Map<u16, TsStream>) -> Option<
    Map<u16, TsStream>,
> {
    if rd16(d, at) is None || rd8(d, at + 10) is None {
        None
    } else {
        sections_from(d, at, 0, at + 16, lasting, m)
    }
}

/// The clips after the extra angles from the `k`th of `n` on, whose table entries start
/// at `at`: each is the main clip `proto` under its own file name and angle.
pub open spec fn angle_clips(
    d: Seq<u8>,
    at: int,
    k: int,
    n: int,
    proto: ClipView,
    clips: Seq<ClipView>,
) -> Option<Seq<ClipView>>
    decreases n - k,
{
    if k >= n {
        Some(clips)
    } else {
        match (rd_text(d, at + 10 * k, 5), rd_text(d, at + 10 * k + 5, 4)) {
            (Some(name), Some(codec)) => angle_clips(
                d,
                at,
                k + 1,
                n,
                proto,
                clips.push(
                    ClipView {
                        angle_index: (k + 1) as i32,
                        name: name + extension(codec),
                        relative_length: blank_clip().relative_length,
                        ..proto
                    },
                ),
            ),
            _ => None,
        }
    }
}

/// What the play items read so far have given.
pub struct Items {
    /// The clips, the extra angles' among them.
    pub clips: Seq<ClipView>,
    /// Which of them are the main ones, by play item.
    pub mains: Seq<int>,
    /// The declared streams.
    pub streams: Map<u16, TsStream>,
    /// The largest number of extra angles of any play item.
    pub angle_count: int,
}

/// How many extra angles an angle count gives.
pub open spec fn extra_angles(angles: u8) -> int {
    if angles > 0 {
        angles - 1
    } else {
        0
    }
}

/// The main clip of a play item with these times, played after what `clips` presents.
pub open spec fn main_clip(name: Seq<char>, codec: Seq<char>, time_in: i64, time_out: i64, clips: Seq<
    ClipView,
>) -> ClipView {
    ClipView {
        name: name + extension(codec),
        time_in,
        time_out,
        relative_time_in: total(clips) as i64,
        relative_time_out: (total(clips) + (time_out - time_in)) as i64,
        length: (time_out - time_in) as i64,
        relative_length: Ratio { num: (time_out - time_in) as i64, den: total(clips) as i64 },
        ..blank_clip()
    }
}

/// The number of extra angles of the play item at `at`, and where its Stream-Number
/// table starts.
pub open spec fn item_angles(d: Seq<u8>, at: int, flags: u8) -> Option<(int, int)> {
    if flags / 16 % 2 != 0 {
        match rd8(d, at + 34) {
            Some(angles) => Some((extra_angles(angles), at + 36 + 10 * extra_angles(angles))),
            None => None,
        }
    } else {
        Some((0int, at + 34))
    }
}

/// What the play items have given after the one at `at`, and where that one ends.
pub open spec fn item(d: Seq<u8>, at: int, so_far: Items) -> Option<(Items, int)> {
    match (
        (rd16(d, at), rd_text(d, at + 2, 5), rd_text(d, at + 7, 4)),
        (rd8(d, at + 12), rd_time(d, at + 14), rd_time(d, at + 18)),
    ) {
        ((Some(length), Some(name), Some(codec)), (Some(flags), Some(time_in), Some(time_out))) => {
            let main = main_clip(name, codec, time_in, time_out, so_far.clips);
            match item_angles(d, at, flags) {
                Some((angles, table)) => match angle_clips(
                    d,
                    at + 36,
                    0,
                    angles,
                    main,
                    so_far.clips.push(main),
                ) {
                    Some(clips) => match stream_table(
                        d,
                        table,
                        main.relative_length.above_hundredth(),
                        so_far.streams,
                    ) {
                        Some(streams) => Some(
                            (
                                Items {
                                    clips,
                                    mains: so_far.mains.push(so_far.clips.len() as int),
                                    streams,
                                    angle_count: if angles > so_far.angle_count {
                                        angles
                                    } else {
                                        so_far.angle_count
                                    },
                                },
                                at + length + 2,
                            ),
                        ),
                        None => None,
                    },
                    None => None,
                },
                None => None,
            }
        },
        _ => None,
    }
}

/// What `n` play items from `at` on give.
pub open spec fn items(d: Seq<u8>, at: int, n: nat, so_far: Items) -> Option<Items>
    decreases n,
{
    if n == 0 {
        Some(so_far)
    } else {
        match item(d, at, so_far) {
            Some((more, next)) => items(d, next, (n - 1) as nat, more),
            None => None,
        }
    }
}

/// Before the first play item.
pub open spec fn no_items() -> Items {
    Items { clips: Seq::empty(), mains: Seq::empty(), streams: Map::empty(), angle_count: 0 }
}

/// The marks read so far: the clips with their own, and the playlist's.
pub struct Marks {
    pub clips: Seq<ClipView>,
    pub chapters: Seq<i64>,
}

/// The marks after a chapter mark at `time` of the play item `index`. It is dropped
/// where no such play item exists, and where the presentation ends within a second of
/// it.
pub open spec fn mark(so_far: Marks, mains: Seq<int>, length: int, index: int, time: int) -> Marks {
    if 0 <= index < mains.len() {
        let i = mains[index];
        let clip = so_far.clips[i];
        let place = time - clip.time_in + clip.relative_time_in;
        if length - place > TICKS_PER_SECOND {
            Marks {
                clips: so_far.clips.update(
                    i,
                    ClipView { chapters: clip.chapters.push(time as i64), ..clip },
                ),
                chapters: so_far.chapters.push(place as i64),
            }
        } else {
            so_far
        }
    } else {
        so_far
    }
}

/// The marks after `n` mark entries from `at` on; only entries of the chapter type
/// count.
pub open spec fn marks(
    d: Seq<u8>,
    at: int,
    n: nat,
    mains: Seq<int>,
    length: int,
    so_far: Marks,
) -> Option<Marks>
    decreases n,
{
    if n == 0 {
        Some(so_far)
    } else {
        match rd8(d, at + 1) {
            None => None,
            Some(kind) => if kind == 1 {
                match (rd16(d, at + 2), rd32(d, at + 4)) {
                    (Some(index), Some(time)) => marks(
                        d,
                        at + 14,
                        (n - 1) as nat,
                        mains,
                        length,
                        mark(so_far, mains, length, index as int, 2 * time as int),
                    ),
                    _ => None,
                }
            } else {
                marks(d, at + 14, (n - 1) as nat, mains, length, so_far)
            },
        }
    }
}

/// What a playlist file says.
pub struct Playlist {
    pub mvc_base_view_r: bool,
    pub chapters: Seq<i64>,
    pub playlist_streams: Map<u16, TsStream>,
    pub clips: Seq<ClipView>,
    pub angle_count: int,
}

/// What a playlist file says behind its magic; `None` where the input ends within it.
pub open spec fn playlist_body(d: Seq<u8>) -> Option<Playlist> {
    match (rd32(d, 8), rd32(d, 12), rd8(d, 0x38)) {
        (Some(items_at), Some(marks_at), Some(flags)) => match rd16(d, items_at + 6) {
            Some(item_count) => match items(d, items_at + 10, item_count as nat, no_items()) {
                Some(found) => match rd16(d, marks_at + 4) {
                    Some(mark_count) => match marks(
                        d,
                        marks_at + 6,
                        mark_count as nat,
                        found.mains,
                        total(found.clips),
                        Marks { clips: found.clips, chapters: Seq::empty() },
                    ) {
                        Some(marked) => Some(
                            Playlist {
                                mvc_base_view_r: flags / 16 % 2 != 0,
                                chapters: marked.chapters,
                                playlist_streams: found.streams,
                                clips: marked.clips,
                                angle_count: found.angle_count,
                            },
                        ),
                        None => None,
                    },
                    None => None,
                },
                None => None,
            },
            None => None,
        },
        _ => None,
    }
}

/// What a playlist file says, or why it says nothing.
pub open spec fn playlist(d: Seq<u8>) -> Result<Playlist, Failure> {
    match rd_text(d, 0, 8) {
        None => Err(Failure::UnexpectedEof),
        Some(magic) => if !playlist_magic(magic) {
            Err(Failure::UnknownFileType(magic))
        } else {
            match playlist_body(d) {
                Some(p) => Ok(p),
                None => Err(Failure::UnexpectedEof),
            }
        },
    }
}

/// A parsed playlist.
///
/// The parse fills the clip list, the declared streams and the chapter times. The two
/// maps of presented streams are for the disc scan to resolve; an unresolved playlist
/// takes no per-stream measurement.
#[derive(Debug, PartialEq)]
pub struct TsPlaylistFile {
    /// The 8-byte type magic, such as `MPLS0300`.
    pub file_type: String,
    /// The upper-cased file name, such as `00000.MPLS`.
    pub name: String,
    /// The `MVC_Base_view_R` flag.
    pub mvc_base_view_r: bool,
    /// The chapter times on the playlist's timeline.
    pub chapters: Vec<i64>,
    /// The streams that the play items declare, keyed by PID.
    pub playlist_streams: BTreeMap<u16, TsStream>,
    /// The presented streams, keyed by PID.
    pub streams: BTreeMap<u16, TsStream>,
    /// The video streams of each extra camera angle, keyed by PID.
    pub angle_streams: Vec<BTreeMap<u16, TsStream>>,
    /// The clips in playing order, those of the extra angles among them.
    pub stream_clips: Vec<TsStreamClip>,
    /// The number of extra camera angles.
    pub angle_count: i32,
}

/// What a [`TsPlaylistFile`] holds, with its texts and lists as sequences and its stream
/// maps as maps.
pub struct PlaylistView {
    pub file_type: Seq<char>,
    pub name: Seq<char>,
    pub mvc_base_view_r: bool,
    pub chapters: Seq<i64>,
    pub playlist_streams: Map<u16, TsStream>,
    pub streams: Map<u16, TsStream>,
    pub angle_streams: Seq<Map<u16, TsStream>>,
    pub clips: Seq<ClipView>,
    pub angle_count: i32,
}

/// The views of the angles' stream maps.
pub open spec fn angle_views(maps: Seq<BTreeMap<u16, TsStream>>) -> Seq<Map<u16, TsStream>> {
    maps.map_values(|m: BTreeMap<u16, TsStream>| m@)
}

impl View for TsPlaylistFile {
    type V = PlaylistView;

    open spec fn view(&self) -> PlaylistView {
        PlaylistView {
            file_type: self.file_type@,
            name: self.name@,
            mvc_base_view_r: self.mvc_base_view_r,
            chapters: self.chapters@,
            playlist_streams: self.playlist_streams@,
            streams: self.streams@,
            angle_streams: angle_views(self.angle_streams@),
            clips: clip_views(self.stream_clips@),
            angle_count: self.angle_count,
        }
    }
}

/// The views of a list of playlists.
pub open spec fn playlist_views(playlists: Seq<TsPlaylistFile>) -> Seq<PlaylistView> {
    playlists.map_values(|p: TsPlaylistFile| p@)
}

/// Whether a playlist plays the stream file `name`.
pub open spec fn plays(p: PlaylistView, name: Seq<char>) -> bool {
    exists|i: int| 0 <= i < p.clips.len() && #[trigger] p.clips[i].name == name
}

impl TsPlaylistFile {
    /// Parses a `*.mpls` file's `data` (named `name`).
    ///
    /// Fails with [`BdError::UnknownFileType`] where the magic is none of the known
    /// ones, and with [`BdError::UnexpectedEof`] where a field runs past the end.
    pub fn scan(name: &str, data: &[u8]) -> (r: Result<Self, BdError>)
        ensures
            match playlist(data@) {
                Ok(p) => {
                    &&& r is Ok
                    &&& r->Ok_0.file_type@ == rd_text(data@, 0, 8)->Some_0
                    &&& r->Ok_0.name@ == upper(name@)
                    &&& r->Ok_0.mvc_base_view_r == p.mvc_base_view_r
                    &&& r->Ok_0.chapters@ == p.chapters
                    &&& r->Ok_0.playlist_streams@ == p.playlist_streams
                    &&& r->Ok_0.streams@ == Map::<u16, TsStream>::empty()
                    &&& r->Ok_0.angle_streams@ == Seq::<BTreeMap<u16, TsStream>>::empty()
                    &&& clip_views(r->Ok_0.stream_clips@) == p.clips
                    &&& r->Ok_0.angle_count == p.angle_count
                },
                Err(f) => r is Err && r->Err_0@ == f,
            },
    {
        assert(data.len() <= usize::MAX);
        let file_type = ascii(data, 0, 8)?;
        let magic = file_type.as_str();
        if !(same(magic, "MPLS0100") || same(magic, "MPLS0200") || same(magic, "MPLS0240") || same(
            magic,
            "MPLS0300",
        )) {
            return Err(BdError::UnknownFileType(file_type));
        }
        let items_at: u32 = u32_be(data, 8)?;
        let marks_at: u32 = u32_be(data, 12)?;
        let flags: u8 = byte(data, 0x38)?;
        let item_count: u16 = u16_be(data, offset(items_at).saturating_add(6))?;
        let found = read_items(data, offset(items_at).saturating_add(10), item_count)?;
        let mark_count: u16 = u16_be(data, offset(marks_at).saturating_add(4))?;
        let ItemList { mut clips, mains, streams, angle_count } = found;
        let chapters = read_marks(
            data,
            offset(marks_at).saturating_add(6),
            mark_count,
            &mains,
            &mut clips,
        )?;
        Ok(
            TsPlaylistFile {
                file_type,
                name: to_ascii_uppercase(name),
                mvc_base_view_r: flags / 16 % 2 != 0,
                chapters,
                playlist_streams: streams,
                streams: BTreeMap::new(),
                angle_streams: Vec::new(),
                stream_clips: clips,
                angle_count,
            },
        )
    }
}

impl TsPlaylistFile {
    /// Whether the playlist plays the stream file `name`.
    pub fn plays_file(&self, name: &str) -> (r: bool)
        ensures
            r == plays(self@, name@),
    {
        let mut i: usize = 0;
        while i < self.stream_clips.len()
            invariant
                i <= self.stream_clips@.len(),
                forall|k: int| 0 <= k < i ==> #[trigger] self@.clips[k].name != name@,
            decreases self.stream_clips@.len() - i,
        {
            if same(self.stream_clips[i].name.as_str(), name) {
                assert(self@.clips[i as int].name == name@);
                return true;
            }
            i = i + 1;
        }
        false
    }
}

/// What the play items read so far have given.
struct ItemList {
    clips: Vec<TsStreamClip>,
    mains: Vec<usize>,
    streams: BTreeMap<u16, TsStream>,
    angle_count: i32,
}

impl View for ItemList {
    type V = Items;

    closed spec fn view(&self) -> Items {
        Items {
            clips: clip_views(self.clips@),
            mains: self.mains@.map_values(|i: usize| i as int),
            streams: self.streams@,
            angle_count: self.angle_count as int,
        }
    }
}

/// The bound on the length of `n` play items: every one is shorter than `0x1_0000_0000`
/// ticks.
spec fn span(n: int) -> int {
    n * 0x1_0000_0000
}

/// Whether clips hold times of `n` play items.
spec fn within(clips: Seq<ClipView>, n: int) -> bool {
    &&& -span(n) <= total(clips) <= span(n)
    &&& forall|i: int|
        #![trigger clips[i]]
        0 <= i < clips.len() ==> 0 <= clips[i].time_in < 0x1_0000_0000 && -span(n)
            <= clips[i].relative_time_in <= span(n)
}

impl ItemList {
    /// Whether the list is that of `n` play items.
    spec fn wf(self, n: int) -> bool {
        &&& within(self@.clips, n)
        &&& self.mains@.len() == n
        &&& forall|i: int| 0 <= i < n ==> #[trigger] self.mains@[i] < self.clips@.len()
        &&& 0 <= self.angle_count <= 254
    }
}

proof fn lemma_total_push(clips: Seq<ClipView>, c: ClipView)
    ensures
        total(clips.push(c)) == total(clips) + (if c.angle_index == 0 {
            c.length as int
        } else {
            0
        }),
{
    assert(clips.push(c).drop_last() =~= clips);
}

/// Marks do not change the length.
proof fn lemma_total_mark(clips: Seq<ClipView>, i: int, c: ClipView)
    requires
        0 <= i < clips.len(),
        c.length == clips[i].length,
        c.angle_index == clips[i].angle_index,
    ensures
        total(clips.update(i, c)) == total(clips),
    decreases clips.len(),
{
    let new = clips.update(i, c);
    if i < clips.len() - 1 {
        lemma_total_mark(clips.drop_last(), i, c);
        assert(new.drop_last() =~= clips.drop_last().update(i, c));
    } else {
        assert(new.drop_last() =~= clips.drop_last());
    }
}

/// The summed length of the main clips: what the clips collected so far present.
pub fn total_length(clips: &Vec<TsStreamClip>) -> (r: i128)
    ensures
        r as int == total(clip_views(clips@)),
{
    let mut length: i128 = 0;
    let mut i: usize = 0;
    let n: usize = clips.len();
    proof {
        assert(clip_views(clips@).subrange(0, 0) =~= Seq::<ClipView>::empty());
    }
    while i < n
        invariant
            i <= n,
            n == clips@.len(),
            length as int == total(clip_views(clips@).subrange(0, i as int)),
            -(i as int) * 0x8000_0000_0000_0000 <= length <= i * 0x8000_0000_0000_0000,
        decreases n - i,
    {
        proof {
            let v = clip_views(clips@);
            lemma_total_push(v.subrange(0, i as int), v[i as int]);
            assert(v.subrange(0, i + 1) =~= v.subrange(0, i as int).push(v[i as int]));
        }
        if clips[i].angle_index == 0 {
            length = length + clips[i].length as i128;
        }
        i = i + 1;
    }
    proof {
        assert(clip_views(clips@).subrange(0, n as int) =~= clip_views(clips@));
    }
    length
}

/// The extension of the stream file that a clip with this codec id lives in: `.FMTS` for
/// an `FMTS` clip, `.M2TS` for every other.
fn clip_extension(codec_id: &str) -> (r: &'static str)
    ensures
        r@ == extension(codec_id@),
{
    if same(codec_id, "FMTS") {
        ".FMTS"
    } else {
        ".M2TS"
    }
}

/// Reads the presentation time at `off`. Bit 31 is not part of it.
fn read_time(data: &[u8], off: usize) -> (r: Result<i64, BdError>)
    ensures
        gives(r, rd_time(data@, off as int)),
        r is Ok ==> 0 <= r->Ok_0 < 0x1_0000_0000,
{
    let raw: u32 = u32_be(data, off)?;
    Ok(2 * (raw % 0x8000_0000) as i64)
}

/// What a walk over file positions gives: the position that was reached, or the end of
/// the input.
spec fn reaches(r: Result<usize, BdError>, want: Option<int>) -> bool {
    match want {
        Some(pos) => r is Ok && r->Ok_0 as int == sat(pos),
        None => r == Err::<usize, BdError>(BdError::UnexpectedEof),
    }
}

/// Skips the comb-info block at `pos`, and returns where it ends.
fn skip_comb_info(data: &[u8], pos: usize) -> (r: Result<usize, BdError>)
    ensures
        reaches(r, after_comb(data@, pos as int)),
{
    let count: u8 = byte(data, pos)?;
    let padded: usize = count as usize + (count % 2) as usize;
    Ok(pos.saturating_add(2).saturating_add(padded))
}

/// Builds the stream of a playlist entry whose coding info starts at `coding`, or `None`
/// for a type that has no decoded form.
fn build_playlist_stream(data: &[u8], coding: usize, stream_type: TsStreamType) -> (r: Result<
    Option<TsStream>,
    BdError,
>)
    ensures
        gives(r, playlist_stream(data@, coding as int, stream_type)),
{
    match stream_type {
        TsStreamType::MvcVideo => Ok(None),
        _ => build_coded_stream(data, coding, stream_type, None),
    }
}

/// The coding info of a playlist entry is that of every stream entry, without an aspect
/// ratio. Only the dependent view of a 3D pair is none of it: nothing of that is read, and
/// it declares no stream.
pub proof fn lemma_a_playlist_entry_is_coded_info(d: Seq<u8>, coding: int, stream_type: TsStreamType)
    ensures
        !(stream_type is MvcVideo) ==> playlist_stream(d, coding, stream_type) == coded_stream(
            d,
            coding,
            stream_type,
            None,
        ),
        stream_type is MvcVideo ==> playlist_stream(d, coding, stream_type) == Some(
            None::<TsStream>,
        ),
        match playlist_stream(d, coding, stream_type) {
            Some(Some(TsStream::Video(v))) => v.aspect_ratio is Unknown,
            _ => true,
        },
{
}

/// Reads the stream entry at `pos`: its stream, if it has one, and where it ends.
fn create_playlist_stream(data: &[u8], pos: usize) -> (r: Result<
    (Option<TsStream>, usize),
    BdError,
>)
    ensures
        match playlist_entry(data@, pos as int) {
            Some((stream, next)) => r is Ok && r->Ok_0.0 == stream && r->Ok_0.1 as int == sat(next),
            None => r == Err::<(Option<TsStream>, usize), BdError>(BdError::UnexpectedEof),
        },
{
    assert(data.len() <= usize::MAX);
    let header_length: u8 = byte(data, pos)?;
    let header_pos: usize = pos.saturating_add(1);
    let header_type: u8 = byte(data, header_pos)?;
    let pid: u16 = match header_type {
        1 => u16_be(data, header_pos.saturating_add(1))?,
        2 => u16_be(data, header_pos.saturating_add(3))?,
        3 | 4 => u16_be(data, header_pos.saturating_add(2))?,
        _ => 0,
    };
    let length_pos: usize = header_pos.saturating_add(header_length as usize);
    let stream_length: u8 = byte(data, length_pos)?;
    let stream_pos: usize = length_pos.saturating_add(1);
    let code: u8 = byte(data, stream_pos)?;
    let stream_type = TsStreamType::from_u8(code);
    let built = build_playlist_stream(data, stream_pos.saturating_add(1), stream_type)?;
    let new_pos: usize = stream_pos.saturating_add(stream_length as usize);
    match built {
        Some(mut stream) => {
            let mut base = *stream.base();
            base.pid = Pid::new(pid);
            base.stream_type = stream_type;
            stream.set_base(base);
            Ok((Some(stream), new_pos))
        },
        None => Ok((None, new_pos)),
    }
}

/// Reads the stream entry at `pos` and records its stream: a PID not seen before is
/// always taken, one seen before only where `lasting`. Returns where the entry ends.
fn add_playlist_stream(
    data: &[u8],
    pos: usize,
    playlist_streams: &mut BTreeMap<u16, TsStream>,
    lasting: bool,
) -> (r: Result<usize, BdError>)
    ensures
        match playlist_entry(data@, pos as int) {
            Some((stream, next)) => {
                &&& reaches(r, Some(next))
                &&& final(playlist_streams)@ == declare(old(playlist_streams)@, stream, lasting)
            },
            None => reaches(r, None),
        },
{
    broadcast use group_btree_axioms;

    let (stream, new_pos) = create_playlist_stream(data, pos)?;
    if let Some(stream) = stream {
        let pid: u16 = stream.base().pid.get();
        if !playlist_streams.contains_key(&pid) || lasting {
            playlist_streams.insert(pid, stream);
        }
    }
    Ok(new_pos)
}

/// Reads the `count` entries of a section at `pos`, each with `combs` comb-info blocks
/// behind it, and records their streams where the section `declares` any. Returns where
/// the section ends.
#[verifier::loop_isolation(false)]
fn read_section(
    data: &[u8],
    pos: usize,
    count: u8,
    combs: u8,
    declares: bool,
    lasting: bool,
    playlist_streams: &mut BTreeMap<u16, TsStream>,
) -> (r: Result<usize, BdError>)
    ensures
        match section(
            data@,
            pos as int,
            count as nat,
            Section { combs: combs as nat, declares },
            lasting,
            old(playlist_streams)@,
        ) {
            Some((streams, next)) => reaches(r, Some(next)) && final(playlist_streams)@ == streams,
            None => reaches(r, None),
        },
{
    assert(data.len() <= usize::MAX);
    let ghost s = Section { combs: combs as nat, declares };
    let ghost whole = section(
        data@,
        pos as int,
        count as nat,
        s,
        lasting,
        old(playlist_streams)@,
    );
    let mut here: usize = pos;
    let ghost mut at: int = pos as int;
    let mut k: u8 = 0;
    while k < count
        invariant
            k <= count,
            data.len() <= usize::MAX,
            0 <= at,
            here as int == sat(at),
            s == (Section { combs: combs as nat, declares }),
            section(data@, at, (count - k) as nat, s, lasting, playlist_streams@) == whole,
        decreases count - k,
    {
        let ghost entry = playlist_entry(data@, at);
        if declares {
            here = add_playlist_stream(data, here, playlist_streams, lasting)?;
        } else {
            let (_, next) = create_playlist_stream(data, here)?;
            here = next;
        }
        proof {
            at = entry->Some_0.1;
        }
        let ghost behind = after_combs(data@, at, combs as nat);
        let mut c: u8 = 0;
        while c < combs
            invariant
                c <= combs,
                data.len() <= usize::MAX,
                0 <= at,
                here as int == sat(at),
                after_combs(data@, at, (combs - c) as nat) == behind,
                behind is None ==> whole is None,
            decreases combs - c,
        {
            here = skip_comb_info(data, here)?;
            proof {
                at = after_comb(data@, at)->Some_0;
            }
            c = c + 1;
        }
        k = k + 1;
    }
    Ok(here)
}

/// How many comb-info blocks follow each entry of the `k`th section.
fn section_combs(k: u8) -> (r: u8)
    requires
        k < 7,
    ensures
        r as nat == table_sections()[k as int].1.combs,
{
    match k {
        5 => 1,
        6 => 2,
        _ => 0,
    }
}

/// Where the `k`th section's entry count stands in the table.
fn section_place(k: u8) -> (r: usize)
    requires
        k < 7,
    ensures
        r as int == table_sections()[k as int].0,
        r <= 10,
{
    match k {
        0 => 4,
        1 => 5,
        2 => 6,
        3 => 10,
        4 => 7,
        5 => 8,
        _ => 9,
    }
}

/// Reads the Stream-Number table at `at`, and records the streams that it declares.
#[verifier::loop_isolation(false)]
fn read_stream_table(
    data: &[u8],
    at: usize,
    lasting: bool,
    playlist_streams: &mut BTreeMap<u16, TsStream>,
) -> (r: Result<(), BdError>)
    ensures
        match stream_table(data@, at as int, lasting, old(playlist_streams)@) {
            Some(streams) => r is Ok && final(playlist_streams)@ == streams,
            None => r == Err::<(), BdError>(BdError::UnexpectedEof),
        },
{
    assert(data.len() <= usize::MAX);
    let _: u16 = u16_be(data, at)?;
    let _: u8 = byte(data, at.saturating_add(10))?;
    let ghost whole = sections_from(data@, at as int, 0, at + 16, lasting, playlist_streams@);
    let mut pos: usize = at.saturating_add(16);
    let ghost mut here: int = at + 16;
    let mut k: u8 = 0;
    while k < 7
        invariant
            k <= 7,
            0 <= here,
            pos as int == sat(here),
            sections_from(data@, at as int, k as int, here, lasting, playlist_streams@) == whole,
        decreases 7 - k,
    {
        let ghost part = nth_section(
            data@,
            at as int,
            k as int,
            here,
            lasting,
            playlist_streams@,
        );
        let count: u8 = byte(data, at.saturating_add(section_place(k)))?;
        proof {
            // Past the reach of a `usize` there is nothing, with either position.
            if here > usize::MAX {
                lemma_section_past_end(
                    data@,
                    here,
                    pos as int,
                    count as nat,
                    table_sections()[k as int].1,
                    lasting,
                    playlist_streams@,
                );
            }
        }
        pos = read_section(data, pos, count, section_combs(k), k != 3, lasting, playlist_streams)?;
        proof {
            here = part->Some_0.1;
        }
        k = k + 1;
    }
    Ok(())
}

/// Two positions past the end read the same: nothing, where there is anything to read.
proof fn lemma_section_past_end(
    d: Seq<u8>,
    a: int,
    b: int,
    n: nat,
    s: Section,
    lasting: bool,
    m: Map<u16, TsStream>,
)
    requires
        a >= d.len(),
        b >= d.len(),
    ensures
        n > 0 ==> section(d, a, n, s, lasting, m) is None && section(d, b, n, s, lasting, m) is None,
{
}

/// The name of a clip's stream file.
fn clip_name(data: &[u8], name_at: usize, codec_at: usize) -> (r: Result<String, BdError>)
    ensures
        match (rd_text(data@, name_at as int, 5), rd_text(data@, codec_at as int, 4)) {
            (Some(name), Some(codec)) => r is Ok && r->Ok_0@ == name + extension(codec),
            _ => r == Err::<String, BdError>(BdError::UnexpectedEof),
        },
{
    let name = ascii(data, name_at, 5)?;
    let codec = ascii(data, codec_at, 4)?;
    Ok(name.concat(clip_extension(codec.as_str())))
}

/// Reads the `extra` angles at `at` of a play item whose main clip has these times, and
/// appends a clip for each.
#[verifier::loop_isolation(false)]
fn read_angles(
    data: &[u8],
    at: usize,
    extra: u8,
    time_in: i64,
    time_out: i64,
    relative_time_in: i64,
    relative_time_out: i64,
    length: i64,
    clips: &mut Vec<TsStreamClip>,
    Ghost(main): Ghost<ClipView>,
) -> (r: Result<(), BdError>)
    requires
        main == (ClipView {
            name: main.name,
            relative_length: main.relative_length,
            time_in,
            time_out,
            relative_time_in,
            relative_time_out,
            length,
            ..blank_clip()
        }),
        extra < 255,
    ensures
        match angle_clips(data@, at as int, 0, extra as int, main, clip_views(old(clips)@)) {
            Some(all) => {
                &&& r is Ok
                &&& clip_views(final(clips)@) == all
                &&& total(all) == total(clip_views(old(clips)@))
                &&& all.len() >= old(clips)@.len()
                &&& forall|i: int|
                    #![trigger all[i]]
                    old(clips)@.len() <= i < all.len() ==> all[i].time_in == time_in
                        && all[i].relative_time_in == relative_time_in
                &&& forall|i: int|
                    #![trigger all[i]]
                    0 <= i < old(clips)@.len() ==> all[i] == clip_views(old(clips)@)[i]
            },
            None => r == Err::<(), BdError>(BdError::UnexpectedEof),
        },
{
    assert(data.len() <= usize::MAX);
    let ghost was = clip_views(clips@);
    let ghost whole = angle_clips(data@, at as int, 0, extra as int, main, was);
    let mut pos: usize = at;
    let mut k: u8 = 0;
    while k < extra
        invariant
            k <= extra,
            extra < 255,
            data.len() <= usize::MAX,
            pos as int == sat(at + 10 * k),
            main == (ClipView {
                name: main.name,
                relative_length: main.relative_length,
                time_in,
                time_out,
                relative_time_in,
                relative_time_out,
                length,
                ..blank_clip()
            }),
            angle_clips(data@, at as int, k as int, extra as int, main, clip_views(clips@))
                == whole,
            total(clip_views(clips@)) == total(was),
            clips@.len() >= was.len(),
            forall|i: int|
                #![trigger clip_views(clips@)[i]]
                was.len() <= i < clips@.len() ==> clip_views(clips@)[i].time_in == time_in
                    && clip_views(clips@)[i].relative_time_in == relative_time_in,
            forall|i: int|
                #![trigger clip_views(clips@)[i]]
                0 <= i < was.len() ==> clip_views(clips@)[i] == was[i],
        decreases extra - k,
    {
        let name = clip_name(data, pos, pos.saturating_add(5))?;
        let clip = TsStreamClip {
            angle_index: (k + 1) as i32,
            name,
            time_in,
            time_out,
            relative_time_in,
            relative_time_out,
            length,
            ..TsStreamClip::default()
        };
        let ghost before = clip_views(clips@);
        let ghost added = clip@;
        clips.push(clip);
        pos = pos.saturating_add(10);
        k = k + 1;
        proof {
            assert(clip_views(clips@) =~= before.push(added));
            lemma_total_push(before, added);
        }
    }
    Ok(())
}

/// Reads the play item at `pos`, adds what it gives to `read`, and returns where it
/// ends.
fn read_item(data: &[u8], pos: usize, read: &mut ItemList, Ghost(n): Ghost<int>) -> (r: Result<
    usize,
    BdError,
>)
    requires
        old(read).wf(n),
        0 <= n < 0x1_0000,
    ensures
        match item(data@, pos as int, old(read)@) {
            Some((more, next)) => reaches(r, Some(next)) && final(read)@ == more && final(read).wf(
                n + 1,
            ),
            None => reaches(r, None),
        },
{
    assert(data.len() <= usize::MAX);
    let ghost was = read@;
    let length: u16 = u16_be(data, pos)?;
    let name = clip_name(data, pos.saturating_add(2), pos.saturating_add(7))?;
    let flags: u8 = byte(data, pos.saturating_add(12))?;
    let time_in: i64 = read_time(data, pos.saturating_add(14))?;
    let time_out: i64 = read_time(data, pos.saturating_add(18))?;
    let relative_time_in: i64 = total_length(&read.clips) as i64;
    let clip_length: i64 = time_out - time_in;
    let relative_time_out: i64 = relative_time_in + clip_length;
    let relative_length = Ratio { num: clip_length, den: relative_time_in };
    let main = TsStreamClip {
        name,
        time_in,
        time_out,
        relative_time_in,
        relative_time_out,
        length: clip_length,
        relative_length,
        ..TsStreamClip::default()
    };
    let ghost first = main@;
    read.mains.push(read.clips.len());
    read.clips.push(main);
    proof {
        assert(clip_views(read.clips@) =~= was.clips.push(first));
        assert(read@.mains =~= was.mains.push(was.clips.len() as int));
        lemma_total_push(was.clips, first);
    }
    let mut table: usize = pos.saturating_add(34);
    if flags / 16 % 2 != 0 {
        let angles: u8 = byte(data, table)?;
        let extra: u8 = if angles > 0 {
            angles - 1
        } else {
            0
        };
        read_angles(
            data,
            pos.saturating_add(36),
            extra,
            time_in,
            time_out,
            relative_time_in,
            relative_time_out,
            clip_length,
            &mut read.clips,
            Ghost(first),
        )?;
        table = pos.saturating_add(36).saturating_add(10 * extra as usize);
        if (extra as i32) > read.angle_count {
            read.angle_count = extra as i32;
        }
    }
    read_stream_table(data, table, relative_length.exceeds_hundredth(), &mut read.streams)?;
    Ok(pos.saturating_add(length as usize).saturating_add(2))
}

/// Reads `count` play items from `pos` on.
#[verifier::loop_isolation(false)]
fn read_items(data: &[u8], pos: usize, count: u16) -> (r: Result<ItemList, BdError>)
    ensures
        match items(data@, pos as int, count as nat, no_items()) {
            Some(found) => r is Ok && r->Ok_0@ == found && r->Ok_0.wf(count as int),
            None => r is Err && r->Err_0 == BdError::UnexpectedEof,
        },
{
    assert(data.len() <= usize::MAX);
    let ghost whole = items(data@, pos as int, count as nat, no_items());
    let mut read = ItemList {
        clips: Vec::new(),
        mains: Vec::new(),
        streams: BTreeMap::new(),
        angle_count: 0,
    };
    proof {
        assert(read@.clips =~= no_items().clips);
        assert(read@.mains =~= no_items().mains);
    }
    let mut here: usize = pos;
    let ghost mut at: int = pos as int;
    let mut k: u16 = 0;
    while k < count
        invariant
            k <= count,
            data.len() <= usize::MAX,
            0 <= at,
            here as int == sat(at),
            read.wf(k as int),
            items(data@, at, (count - k) as nat, read@) == whole,
        decreases count - k,
    {
        let ghost found = item(data@, at, read@);
        here = read_item(data, here, &mut read, Ghost(k as int))?;
        proof {
            at = found->Some_0.1;
        }
        k = k + 1;
    }
    Ok(read)
}

/// Reads `count` mark entries from `pos` on: gives each clip its chapter marks, and
/// returns the playlist's.
#[verifier::loop_isolation(false)]
fn read_marks(
    data: &[u8],
    pos: usize,
    count: u16,
    mains: &Vec<usize>,
    clips: &mut Vec<TsStreamClip>,
) -> (r: Result<Vec<i64>, BdError>)
    requires
        within(clip_views(old(clips)@), 0x1_0000),
        forall|i: int| 0 <= i < mains@.len() ==> #[trigger] mains@[i] < old(clips)@.len(),
    ensures
        match marks(
            data@,
            pos as int,
            count as nat,
            mains@.map_values(|i: usize| i as int),
            total(clip_views(old(clips)@)),
            Marks { clips: clip_views(old(clips)@), chapters: Seq::empty() },
        ) {
            Some(marked) => {
                &&& r is Ok
                &&& r->Ok_0@ == marked.chapters
                &&& clip_views(final(clips)@) == marked.clips
            },
            None => r is Err && r->Err_0 == BdError::UnexpectedEof,
        },
{
    assert(data.len() <= usize::MAX);
    let length: i128 = total_length(clips);
    let ghost places = mains@.map_values(|i: usize| i as int);
    let ghost whole = marks(
        data@,
        pos as int,
        count as nat,
        places,
        length as int,
        Marks { clips: clip_views(clips@), chapters: Seq::empty() },
    );
    let mut chapters: Vec<i64> = Vec::new();
    let mut here: usize = pos;
    let mut k: u16 = 0;
    while k < count
        invariant
            k <= count,
            data.len() <= usize::MAX,
            here as int == sat(pos + 14 * k),
            places == mains@.map_values(|i: usize| i as int),
            -span(0x1_0000) <= length <= span(0x1_0000),
            within(clip_views(clips@), 0x1_0000),
            forall|i: int| 0 <= i < mains@.len() ==> #[trigger] mains@[i] < clips@.len(),
            marks(
                data@,
                pos + 14 * k,
                (count - k) as nat,
                places,
                length as int,
                Marks { clips: clip_views(clips@), chapters: chapters@ },
            ) == whole,
        decreases count - k,
    {
        let kind: u8 = byte(data, here.saturating_add(1))?;
        if kind == 1 {
            let index: u16 = u16_be(data, here.saturating_add(2))?;
            let raw: u32 = u32_be(data, here.saturating_add(4))?;
            if (index as usize) < mains.len() {
                let i: usize = mains[index as usize];
                proof {
                    let v = clip_views(clips@);
                    assert(v[i as int] == clips@[i as int]@);
                }
                let time: i64 = 2 * raw as i64;
                let place: i64 = time - clips[i].time_in + clips[i].relative_time_in;
                if length - place as i128 > TICKS_PER_SECOND as i128 {
                    let ghost before = clip_views(clips@);
                    let ghost marked = ClipView {
                        chapters: before[i as int].chapters.push(time),
                        ..before[i as int]
                    };
                    clips[i].chapters.push(time);
                    chapters.push(place);
                    proof {
                        assert(clip_views(clips@) =~= before.update(i as int, marked));
                        lemma_total_mark(before, i as int, marked);
                    }
                }
            }
        }
        here = here.saturating_add(14);
        k = k + 1;
    }
    Ok(chapters)
}

// ---- what holds of every playlist ----

/// Whether every declared stream stands under its own PID, with a coding type that is
/// decoded.
pub open spec fn declared_well(m: Map<u16, TsStream>) -> bool {
    forall|pid: u16| #[trigger]
        m.contains_key(pid) ==> {
            &&& m[pid].common().pid.raw == pid
            &&& !(m[pid].common().stream_type is MvcVideo)
            &&& !(m[pid].common().stream_type is Unknown)
        }
}

proof fn lemma_section_declares_well(
    d: Seq<u8>,
    pos: int,
    n: nat,
    s: Section,
    lasting: bool,
    m: Map<u16, TsStream>,
)
    requires
        declared_well(m),
    ensures
        match section(d, pos, n, s, lasting, m) {
            Some((streams, _)) => declared_well(streams),
            None => true,
        },
    decreases n,
{
    if n > 0 {
        match playlist_entry(d, pos) {
            Some((stream, next)) => match after_combs(d, next, s.combs) {
                Some(after) => {
                    lemma_section_declares_well(
                        d,
                        after,
                        (n - 1) as nat,
                        s,
                        lasting,
                        if s.declares {
                            declare(m, stream, lasting)
                        } else {
                            m
                        },
                    );
                },
                None => {},
            },
            None => {},
        }
    }
}

proof fn lemma_sections_declare_well(
    d: Seq<u8>,
    at: int,
    k: int,
    pos: int,
    lasting: bool,
    m: Map<u16, TsStream>,
)
    requires
        declared_well(m),
        0 <= k,
    ensures
        match sections_from(d, at, k, pos, lasting, m) {
            Some(streams) => declared_well(streams),
            None => true,
        },
    decreases 7 - k,
{
    if k < 7 {
        let (place, s) = table_sections()[k];
        match rd8(d, at + place) {
            Some(count) => {
                lemma_section_declares_well(d, pos, count as nat, s, lasting, m);
                match nth_section(d, at, k, pos, lasting, m) {
                    Some((streams, next)) => {
                        lemma_sections_declare_well(d, at, k + 1, next, lasting, streams);
                    },
                    None => {},
                }
            },
            None => {},
        }
    }
}

/// Whether what the play items have given is sound: the declared streams stand under their
/// own PIDs, the main clips are where they are said to be, every extra angle is within the
/// angle count, and the times are those of `n` play items.
spec fn sound(so_far: Items, n: int) -> bool {
    &&& declared_well(so_far.streams)
    &&& 0 <= so_far.angle_count <= 254
    &&& so_far.mains.len() == n
    &&& forall|i: int|
        #![trigger so_far.mains[i]]
        0 <= i < n ==> 0 <= so_far.mains[i] < so_far.clips.len()
            && so_far.clips[so_far.mains[i]].angle_index == 0
    &&& forall|i: int|
        #![trigger so_far.clips[i]]
        0 <= i < so_far.clips.len() ==> 0 <= so_far.clips[i].angle_index <= so_far.angle_count
    &&& within(so_far.clips, n)
}

proof fn lemma_angles_sound(
    d: Seq<u8>,
    at: int,
    k: int,
    n: int,
    main: ClipView,
    clips: Seq<ClipView>,
    span_of: int,
)
    requires
        0 <= k,
        n <= 254,
        0 <= main.time_in < 0x1_0000_0000,
        -span(span_of) <= main.relative_time_in <= span(span_of),
        within(clips, span_of),
    ensures
        match angle_clips(d, at, k, n, main, clips) {
            Some(all) => {
                &&& within(all, span_of)
                &&& all.len() >= clips.len()
                &&& forall|i: int| #![trigger all[i]] 0 <= i < clips.len() ==> all[i] == clips[i]
                &&& forall|i: int|
                    #![trigger all[i]]
                    clips.len() <= i < all.len() ==> 1 <= all[i].angle_index <= n
            },
            None => true,
        },
    decreases n - k,
{
    if k < n {
        match (rd_text(d, at + 10 * k, 5), rd_text(d, at + 10 * k + 5, 4)) {
            (Some(name), Some(codec)) => {
                let added = ClipView {
                    angle_index: (k + 1) as i32,
                    name: name + extension(codec),
                    relative_length: blank_clip().relative_length,
                    ..main
                };
                lemma_total_push(clips, added);
                let next = clips.push(added);
                assert(within(next, span_of)) by {
                    assert forall|i: int| #![trigger next[i]] 0 <= i < next.len() implies 0
                        <= next[i].time_in < 0x1_0000_0000 && -span(span_of)
                        <= next[i].relative_time_in <= span(span_of) by {
                        if i < clips.len() {
                            assert(next[i] == clips[i]);
                        }
                    }
                }
                lemma_angles_sound(d, at, k + 1, n, main, next, span_of);
                match angle_clips(d, at, k + 1, n, main, next) {
                    Some(all) => {
                        assert forall|i: int| #![trigger all[i]] 0 <= i < clips.len() implies all[i]
                            == clips[i] by {
                            assert(all[i] == next[i]);
                        }
                        assert(all[clips.len() as int] == added);
                    },
                    None => {},
                }
            },
            _ => {},
        }
    }
}

proof fn lemma_item_sound(d: Seq<u8>, at: int, so_far: Items, n: int)
    requires
        sound(so_far, n),
        0 <= n < 0x1_0000,
    ensures
        match item(d, at, so_far) {
            Some((more, _)) => sound(more, n + 1),
            None => true,
        },
{
    match (
        (rd16(d, at), rd_text(d, at + 2, 5), rd_text(d, at + 7, 4)),
        (rd8(d, at + 12), rd_time(d, at + 14), rd_time(d, at + 18)),
    ) {
        ((Some(length), Some(name), Some(codec)), (Some(flags), Some(time_in), Some(time_out))) => {
            let main = main_clip(name, codec, time_in, time_out, so_far.clips);
            let first = so_far.clips.push(main);
            lemma_total_push(so_far.clips, main);
            assert(within(first, n + 1)) by {
                assert forall|i: int| #![trigger first[i]] 0 <= i < first.len() implies 0
                    <= first[i].time_in < 0x1_0000_0000 && -span(n + 1) <= first[i].relative_time_in
                    <= span(n + 1) by {
                    if i < so_far.clips.len() {
                        assert(first[i] == so_far.clips[i]);
                    }
                }
            }
            match item_angles(d, at, flags) {
                Some((angles, table)) => {
                    lemma_angles_sound(
                        d,
                        at + 36,
                        0,
                        angles,
                        main,
                        first,
                        n + 1,
                    );
                    lemma_sections_declare_well(
                        d,
                        table,
                        0,
                        table + 16,
                        main.relative_length.above_hundredth(),
                        so_far.streams,
                    );
                    match item(d, at, so_far) {
                        Some((more, _)) => {
                            let all = more.clips;
                            assert forall|i: int|
                                #![trigger more.mains[i]]
                                0 <= i < n + 1 implies 0 <= more.mains[i] < all.len()
                                && all[more.mains[i]].angle_index == 0 by {
                                if i < n {
                                    assert(more.mains[i] == so_far.mains[i]);
                                    assert(all[more.mains[i]] == first[more.mains[i]]);
                                    assert(first[more.mains[i]] == so_far.clips[so_far.mains[i]]);
                                } else {
                                    assert(more.mains[i] == so_far.clips.len());
                                    assert(all[more.mains[i]] == first[more.mains[i]]);
                                }
                            }
                            assert forall|i: int| #![trigger all[i]] 0 <= i < all.len() implies 0
                                <= all[i].angle_index <= more.angle_count by {
                                if i < first.len() {
                                    assert(all[i] == first[i]);
                                    if i < so_far.clips.len() {
                                        assert(first[i] == so_far.clips[i]);
                                    }
                                }
                            }
                        },
                        None => {},
                    }
                },
                None => {},
            }
        },
        _ => {},
    }
}

proof fn lemma_items_sound(d: Seq<u8>, at: int, count: nat, so_far: Items, n: int)
    requires
        sound(so_far, n),
        0 <= n,
        n + count <= 0x1_0000,
    ensures
        match items(d, at, count, so_far) {
            Some(found) => sound(found, n + count),
            None => true,
        },
    decreases count,
{
    if count > 0 {
        lemma_item_sound(d, at, so_far, n);
        match item(d, at, so_far) {
            Some((more, next)) => {
                lemma_items_sound(d, next, (count - 1) as nat, more, n + 1);
            },
            None => {},
        }
    }
}

/// Whether every chapter leaves more than a second of the presentation.
pub open spec fn marks_in_time(chapters: Seq<i64>, length: int) -> bool {
    forall|i: int| 0 <= i < chapters.len() ==> length - #[trigger] chapters[i] > TICKS_PER_SECOND
}

proof fn lemma_marks(
    d: Seq<u8>,
    at: int,
    n: nat,
    mains: Seq<int>,
    length: int,
    so_far: Marks,
)
    requires
        within(so_far.clips, 0x1_0000),
        -span(0x1_0000) <= length <= span(0x1_0000),
        forall|i: int|
            #![trigger mains[i]]
            0 <= i < mains.len() ==> 0 <= mains[i] < so_far.clips.len(),
        marks_in_time(so_far.chapters, length),
    ensures
        match marks(d, at, n, mains, length, so_far) {
            Some(marked) => {
                &&& marks_in_time(marked.chapters, length)
                &&& marked.clips.len() == so_far.clips.len()
                &&& marked.chapters.len() <= so_far.chapters.len() + n
                &&& total(marked.clips) == total(so_far.clips)
                &&& forall|i: int|
                    #![trigger marked.clips[i]]
                    0 <= i < so_far.clips.len() ==> marked.clips[i].angle_index
                        == so_far.clips[i].angle_index
            },
            None => true,
        },
    decreases n,
{
    if n > 0 {
        match rd8(d, at + 1) {
            Some(kind) => if kind == 1 {
                match (rd16(d, at + 2), rd32(d, at + 4)) {
                    (Some(index), Some(time)) => {
                        let next = mark(so_far, mains, length, index as int, 2 * time as int);
                        if (index as int) < mains.len() {
                            let i = mains[index as int];
                            let clip = so_far.clips[i];
                            let place = 2 * time as int - clip.time_in + clip.relative_time_in;
                            if length - place > TICKS_PER_SECOND {
                                lemma_total_mark(so_far.clips, i, next.clips[i]);
                                assert forall|k: int| 0 <= k < next.chapters.len() implies length
                                    - #[trigger] next.chapters[k] > TICKS_PER_SECOND by {
                                    if k < so_far.chapters.len() {
                                        assert(next.chapters[k] == so_far.chapters[k]);
                                    }
                                }
                                assert(within(next.clips, 0x1_0000)) by {
                                    assert forall|k: int|
                                        #![trigger next.clips[k]]
                                        0 <= k < next.clips.len() implies 0
                                        <= next.clips[k].time_in < 0x1_0000_0000
                                        && -span(0x1_0000) <= next.clips[k].relative_time_in
                                        <= span(0x1_0000) by {
                                        assert(next.clips[k].time_in == so_far.clips[k].time_in);
                                    }
                                }
                            }
                        }
                        lemma_marks(d, at + 14, (n - 1) as nat, mains, length, next);
                    },
                    _ => {},
                }
            } else {
                lemma_marks(d, at + 14, (n - 1) as nat, mains, length, so_far);
            },
            None => {},
        }
    }
}

/// In every playlist that parses, each declared stream stands under its own PID and has a
/// decoded type; there are at most 254 extra angles and no clip of any other; and every
/// chapter leaves more than a second of the presentation.
pub proof fn lemma_playlists_are_sound(d: Seq<u8>)
    ensures
        match playlist(d) {
            Ok(p) => {
                &&& declared_well(p.playlist_streams)
                &&& 0 <= p.angle_count <= 254
                &&& forall|i: int|
                    #![trigger p.clips[i]]
                    0 <= i < p.clips.len() ==> 0 <= p.clips[i].angle_index <= p.angle_count
                &&& marks_in_time(p.chapters, total(p.clips))
            },
            Err(_) => true,
        },
{
    match (rd32(d, 8), rd32(d, 12), rd8(d, 0x38)) {
        (Some(items_at), Some(marks_at), Some(flags)) => match rd16(d, items_at + 6) {
            Some(item_count) => {
                lemma_items_sound(d, items_at + 10, item_count as nat, no_items(), 0);
                match items(d, items_at + 10, item_count as nat, no_items()) {
                    Some(found) => {
                        assert(within(found.clips, 0x1_0000));
                        match rd16(d, marks_at + 4) {
                            Some(mark_count) => {
                                lemma_marks(
                                    d,
                                    marks_at + 6,
                                    mark_count as nat,
                                    found.mains,
                                    total(found.clips),
                                    Marks { clips: found.clips, chapters: Seq::empty() },
                                );
                                match playlist_body(d) {
                                    Some(p) => {
                                        assert forall|i: int|
                                            #![trigger p.clips[i]]
                                            0 <= i < p.clips.len() implies 0
                                            <= p.clips[i].angle_index <= p.angle_count by {
                                            assert(p.clips[i].angle_index
                                                == found.clips[i].angle_index);
                                        }
                                    },
                                    None => {},
                                }
                            },
                            None => {},
                        }
                    },
                    None => {},
                }
            },
            None => {},
        },
        _ => {},
    }
}

} // verus!
