//! Clip-information (`*.clpi`) parser.
//!
//! A `*.clpi` file describes one `*.m2ts` clip: its `ProgramInfo` block lists the
//! elementary streams of each program sequence, every stream with its PID, its coding
//! type and its coding info. The streams of all program sequences merge into one map
//! keyed by PID, in which a PID that a later sequence declares again replaces the
//! earlier entry.

use std::collections::BTreeMap;

use vstd::prelude::*;
use vstd::slice::*;
use vstd::std_specs::btree::*;
use vstd::string::*;

use super::{
    ascii, build_coded_stream, byte, coded_stream, gives, rd16, rd32, rd8, rd_text, sat, u16_be,
    u32_off,
};
use crate::error::{BdError, Failure};
use crate::primitives::Pid;
use crate::stream::{type_of_code, TsStream, TsStreamBase, TsStreamType};
use crate::text::{same, to_ascii_uppercase, upper};

verus! {

/// A quotient of two tick counts, kept as its two parts.
#[derive(Debug, Clone, Copy, PartialEq, Eq, Structural)]
pub struct Ratio {
    /// The dividend.
    pub num: i64,
    /// The divisor; nothing is above one hundredth of it where it and the dividend
    /// are both `0`.
    pub den: i64,
}

impl Ratio {
    /// Whether the quotient is above one hundredth. A positive dividend over `0` is
    /// above every bound, any other dividend over `0` is above none.
    pub open spec fn above_hundredth(self) -> bool {
        if self.den > 0 {
            100 * self.num > self.den
        } else if self.den < 0 {
            100 * self.num < self.den
        } else {
            self.num > 0
        }
    }

    /// Whether the quotient is above one hundredth.
    pub fn exceeds_hundredth(self) -> (r: bool)
        ensures
            r == self.above_hundredth(),
    {
        if self.den > 0 {
            100i128 * self.num as i128 > self.den as i128
        } else if self.den < 0 {
            (100i128 * self.num as i128) < self.den as i128
        } else {
            self.num > 0
        }
    }
}

/// One playlist clip.
///
/// The playlist parser makes one for each play item and each extra angle of it, with
/// the clip's name and its place on the two timelines. The packet scan fills in what it
/// measures.
#[derive(Debug, PartialEq)]
pub struct TsStreamClip {
    /// The camera angle; `0` is the main one.
    pub angle_index: i32,
    /// The clip's stream file, such as `00000.M2TS`.
    pub name: String,
    /// Where the clip starts within its stream file.
    pub time_in: i64,
    /// Where the clip ends within its stream file.
    pub time_out: i64,
    /// Where the clip starts on the playlist's timeline.
    pub relative_time_in: i64,
    /// Where the clip ends on the playlist's timeline.
    pub relative_time_out: i64,
    /// How long the clip is.
    pub length: i64,
    /// The clip's length over the length of what the playlist plays before it.
    pub relative_length: Ratio,
    /// The size of the stream file, bytes.
    pub file_size: u64,
    /// The size of the interleaved stream file, bytes.
    pub interleaved_file_size: u64,
    /// The payload bytes that the packet scan attributed to the clip.
    pub payload_bytes: u64,
    /// The transport packets that the packet scan attributed to the clip.
    pub packet_count: u64,
    /// How much of the clip the packet scan has seen.
    pub packet_ticks: i128,
    /// The chapter marks within the clip's stream file.
    pub chapters: Vec<i64>,
}

/// What a [`TsStreamClip`] holds, with its name and its marks as sequences.
pub struct ClipView {
    pub angle_index: i32,
    pub name: Seq<char>,
    pub time_in: i64,
    pub time_out: i64,
    pub relative_time_in: i64,
    pub relative_time_out: i64,
    pub length: i64,
    pub relative_length: Ratio,
    pub file_size: u64,
    pub interleaved_file_size: u64,
    pub payload_bytes: u64,
    pub packet_count: u64,
    pub packet_ticks: i128,
    pub chapters: Seq<i64>,
}

impl View for TsStreamClip {
    type V = ClipView;

    open spec fn view(&self) -> ClipView {
        ClipView {
            angle_index: self.angle_index,
            name: self.name@,
            time_in: self.time_in,
            time_out: self.time_out,
            relative_time_in: self.relative_time_in,
            relative_time_out: self.relative_time_out,
            length: self.length,
            relative_length: self.relative_length,
            file_size: self.file_size,
            interleaved_file_size: self.interleaved_file_size,
            payload_bytes: self.payload_bytes,
            packet_count: self.packet_count,
            packet_ticks: self.packet_ticks,
            chapters: self.chapters@,
        }
    }
}

/// A clip of which nothing is known.
pub open spec fn blank_clip() -> ClipView {
    ClipView {
        angle_index: 0,
        name: Seq::empty(),
        time_in: 0,
        time_out: 0,
        relative_time_in: 0,
        relative_time_out: 0,
        length: 0,
        relative_length: Ratio { num: 0, den: 1 },
        file_size: 0,
        interleaved_file_size: 0,
        payload_bytes: 0,
        packet_count: 0,
        packet_ticks: 0,
        chapters: Seq::empty(),
    }
}

/// The views of a clip list.
pub open spec fn clip_views(clips: Seq<TsStreamClip>) -> Seq<ClipView> {
    clips.map_values(|c: TsStreamClip| c@)
}

impl Clone for TsStreamClip {
    fn clone(&self) -> (r: Self)
        ensures
            r@ == self@,
    {
        let chapters = self.chapters.clone();
        proof {
            assert(chapters@ =~= self.chapters@);
        }
        TsStreamClip {
            angle_index: self.angle_index,
            name: self.name.clone(),
            time_in: self.time_in,
            time_out: self.time_out,
            relative_time_in: self.relative_time_in,
            relative_time_out: self.relative_time_out,
            length: self.length,
            relative_length: self.relative_length,
            file_size: self.file_size,
            interleaved_file_size: self.interleaved_file_size,
            payload_bytes: self.payload_bytes,
            packet_count: self.packet_count,
            packet_ticks: self.packet_ticks,
            chapters,
        }
    }
}

impl Default for TsStreamClip {
    fn default() -> (r: Self)
        ensures
            r@ == blank_clip(),
    {
        TsStreamClip {
            angle_index: 0,
            name: String::new(),
            time_in: 0,
            time_out: 0,
            relative_time_in: 0,
            relative_time_out: 0,
            length: 0,
            relative_length: Ratio { num: 0, den: 1 },
            file_size: 0,
            interleaved_file_size: 0,
            payload_bytes: 0,
            packet_count: 0,
            packet_ticks: 0,
            chapters: Vec::new(),
        }
    }
}

/// The known type magics of a clip-information file.
pub open spec fn clip_magic(t: Seq<char>) -> bool {
    t == "HDMV0100"@ || t == "HDMV0200"@ || t == "HDMV0240"@ || t == "HDMV0300"@
}

/// The stream that the coding-info block at `info` describes: none for the dependent
/// view of a 3D pair, whose type carries no decoded fields, and none for an unknown
/// type.
pub open spec fn clip_stream(d: Seq<u8>, info: int, stream_type: TsStreamType) -> Option<
    Option<TsStream>,
> {
    if stream_type is MvcVideo {
        Some(None)
    } else {
        coded_stream(d, info + 2, stream_type, Some(info + 3))
    }
}

/// A decoded stream under its PID and its coding type.
pub open spec fn labelled(stream: TsStream, pid: u16, stream_type: TsStreamType) -> TsStream {
    stream.with_common(TsStreamBase { pid: Pid { raw: pid }, stream_type, ..stream.common() })
}

/// A stream map after a stream entry: its stream replaces what the PID had before, and
/// an entry without a stream leaves the map alone.
pub open spec fn record(
    m: Map<u16, TsStream>,
    pid: u16,
    stream: Option<TsStream>,
    stream_type: TsStreamType,
) -> Map<u16, TsStream> {
    match stream {
        Some(s) => m.insert(pid, labelled(s, pid, stream_type)),
        None => m,
    }
}

/// The streams after `n` stream entries from `off` on, and where those entries end;
/// `None` where the block ends within them.
pub open spec fn clip_entries(d: Seq<u8>, off: int, n: nat, m: Map<u16, TsStream>) -> Option<
    (Map<u16, TsStream>, int),
>
    decreases n,
{
    if n == 0 {
        Some((m, off))
    } else {
        match (rd16(d, off), rd8(d, off + 2), rd8(d, off + 3)) {
            (Some(pid), Some(len), Some(code)) => {
                let stream_type = type_of_code(code);
                match clip_stream(d, off + 2, stream_type) {
                    Some(stream) => clip_entries(
                        d,
                        off + 3 + len,
                        (n - 1) as nat,
                        record(m, pid, stream, stream_type),
                    ),
                    None => None,
                }
            },
            _ => None,
        }
    }
}

/// The streams after `n` program sequences from `off` on; `None` where the block ends
/// within them.
pub open spec fn clip_programs(d: Seq<u8>, off: int, n: nat, m: Map<u16, TsStream>) -> Option<
    Map<u16, TsStream>,
>
    decreases n,
{
    if n == 0 {
        Some(m)
    } else {
        match rd8(d, off + 6) {
            Some(count) => match clip_entries(d, off + 8, count as nat, m) {
                Some((streams, next)) => clip_programs(d, next, (n - 1) as nat, streams),
                None => None,
            },
            None => None,
        }
    }
}

/// The `ProgramInfo` block: behind its 4-byte length, at the address that offset 12
/// holds.
pub open spec fn program_info(d: Seq<u8>) -> Option<Seq<u8>> {
    match rd32(d, 12) {
        Some(at) => match rd32(d, at as int) {
            Some(len) => if at + 4 + len <= d.len() {
                Some(d.subrange(at + 4, at + 4 + len))
            } else {
                None
            },
            None => None,
        },
        None => None,
    }
}

/// The streams that a clip-information file declares, or why it declares none.
pub open spec fn clip_streams(d: Seq<u8>) -> Result<Map<u16, TsStream>, Failure> {
    match rd_text(d, 0, 8) {
        None => Err(Failure::UnexpectedEof),
        Some(magic) => if !clip_magic(magic) {
            Err(Failure::UnknownFileType(magic))
        } else {
            match program_info(d) {
                None => Err(Failure::UnexpectedEof),
                Some(block) => match rd8(block, 1) {
                    None => Err(Failure::UnexpectedEof),
                    Some(count) => match clip_programs(block, 2, count as nat, Map::empty()) {
                        None => Err(Failure::UnexpectedEof),
                        Some(streams) => Ok(streams),
                    },
                },
            }
        },
    }
}

/// A parsed clip-information file.
#[derive(Debug, PartialEq)]
pub struct TsStreamClipFile {
    /// The 8-byte type magic, such as `HDMV0300`.
    pub file_type: String,
    /// Whether the file scanned successfully; a failed scan gives an error instead.
    pub is_valid: bool,
    /// The upper-cased file name, such as `00000.CLPI`.
    pub name: String,
    /// The clip's elementary streams, keyed by PID.
    pub streams: BTreeMap<u16, TsStream>,
}

/// What a [`TsStreamClipFile`] holds.
pub struct ClipFileView {
    pub file_type: Seq<char>,
    pub is_valid: bool,
    pub name: Seq<char>,
    pub streams: Map<u16, TsStream>,
}

impl View for TsStreamClipFile {
    type V = ClipFileView;

    open spec fn view(&self) -> ClipFileView {
        ClipFileView {
            file_type: self.file_type@,
            is_valid: self.is_valid,
            name: self.name@,
            streams: self.streams@,
        }
    }
}

impl TsStreamClipFile {
    /// Parses a `*.clpi` file's `data` (named `name`).
    ///
    /// Fails with [`BdError::UnknownFileType`] where the magic is none of the known
    /// ones, and with [`BdError::UnexpectedEof`] where a field runs past the end.
    pub fn scan(name: &str, data: &[u8]) -> (r: Result<Self, BdError>)
        ensures
            match clip_streams(data@) {
                Ok(streams) => {
                    &&& r is Ok
                    &&& r->Ok_0.file_type@ == rd_text(data@, 0, 8)->Some_0
                    &&& r->Ok_0.is_valid
                    &&& r->Ok_0.name@ == upper(name@)
                    &&& r->Ok_0.streams@ == streams
                },
                Err(f) => r is Err && r->Err_0@ == f,
            },
    {
        broadcast use group_btree_axioms;

        let file_type = ascii(data, 0, 8)?;
        let magic = file_type.as_str();
        if !(same(magic, "HDMV0100") || same(magic, "HDMV0200") || same(magic, "HDMV0240") || same(
            magic,
            "HDMV0300",
        )) {
            return Err(BdError::UnknownFileType(file_type));
        }
        let n: usize = data.len();
        let at: usize = u32_off(data, 12)?;
        let len: usize = u32_off(data, at)?;
        if n < 4 || at > n - 4 || len > n - 4 - at {
            return Err(BdError::UnexpectedEof);
        }
        let block = slice_subrange(data, at + 4, at + 4 + len);
        let num_prog: u8 = byte(block, 1)?;
        let mut streams: BTreeMap<u16, TsStream> = BTreeMap::new();
        let mut prog_offset: usize = 2;
        let ghost mut off: int = 2;
        let mut p: u8 = 0;
        while p < num_prog
            invariant
                p <= num_prog,
                prog_offset as int == sat(off),
                block.len() <= usize::MAX,
                0 <= off,
                clip_programs(block@, off, (num_prog - p) as nat, streams@) == clip_programs(
                    block@,
                    2,
                    num_prog as nat,
                    Map::empty(),
                ),
                clip_streams(data@) == (match clip_programs(
                    block@,
                    2,
                    num_prog as nat,
                    Map::empty(),
                ) {
                    None => Err::<Map<u16, TsStream>, Failure>(Failure::UnexpectedEof),
                    Some(s) => Ok(s),
                }),
            decreases num_prog - p,
        {
            let stream_count: u8 = byte(block, prog_offset.saturating_add(6))?;
            let mut stream_offset: usize = prog_offset.saturating_add(8);
            let ghost mut entry: int = off + 8;
            let ghost before = streams@;
            let mut e: u8 = 0;
            while e < stream_count
                invariant
                    e <= stream_count,
                    stream_offset as int == sat(entry),
                    block.len() <= usize::MAX,
                    0 <= entry,
                    p < num_prog,
                    clip_entries(block@, entry, (stream_count - e) as nat, streams@)
                        == clip_entries(block@, off + 8, stream_count as nat, before),
                    clip_entries(block@, off + 8, stream_count as nat, before) is None
                        ==> clip_streams(data@) == Err::<Map<u16, TsStream>, Failure>(
                        Failure::UnexpectedEof,
                    ),
                decreases stream_count - e,
            {
                let pid: u16 = u16_be(block, stream_offset)?;
                let info: usize = stream_offset.saturating_add(2);
                let len: u8 = byte(block, info)?;
                let code: u8 = byte(block, info.saturating_add(1))?;
                let stream_type = TsStreamType::from_u8(code);
                if let Some(mut stream) = build_clip_stream(block, info, stream_type)? {
                    let mut base = *stream.base();
                    base.pid = Pid::new(pid);
                    base.stream_type = stream_type;
                    stream.set_base(base);
                    streams.insert(pid, stream);
                }
                stream_offset = info.saturating_add(len as usize + 1);
                e = e + 1;
                proof {
                    entry = entry + 3 + len;
                }
            }
            prog_offset = stream_offset;
            p = p + 1;
            proof {
                off = entry;
            }
        }
        Ok(
            TsStreamClipFile {
                file_type,
                is_valid: true,
                name: to_ascii_uppercase(name),
                streams,
            },
        )
    }
}

/// Builds the stream of one clip-information entry whose coding-info block starts at
/// `info`, or `None` for a type that has no decoded form.
fn build_clip_stream(clip_data: &[u8], info: usize, stream_type: TsStreamType) -> (r: Result<
    Option<TsStream>,
    BdError,
>)
    ensures
        gives(r, clip_stream(clip_data@, info as int, stream_type)),
{
    assert(clip_data.len() <= usize::MAX);
    match stream_type {
        TsStreamType::MvcVideo => Ok(None),
        _ => build_coded_stream(
            clip_data,
            info.saturating_add(2),
            stream_type,
            Some(info.saturating_add(3)),
        ),
    }
}

/// The dependent view of a 3D pair and an unknown coding type declare no stream.
pub proof fn lemma_undecoded_types_declare_nothing(d: Seq<u8>, info: int, stream_type: TsStreamType)
    requires
        stream_type is MvcVideo || stream_type is Unknown,
    ensures
        clip_stream(d, info, stream_type) == Some(None::<TsStream>),
{
}

/// The coding info of a clip-information entry is that of every stream entry, two bytes into
/// its block, with the aspect ratio in the byte behind. Only the dependent view of a 3D pair
/// is none of it: nothing of that is read, and it declares no stream.
pub proof fn lemma_a_clip_entry_is_coded_info(d: Seq<u8>, info: int, stream_type: TsStreamType)
    ensures
        !(stream_type is MvcVideo) ==> clip_stream(d, info, stream_type) == coded_stream(
            d,
            info + 2,
            stream_type,
            Some(info + 3),
        ),
        stream_type is MvcVideo ==> clip_stream(d, info, stream_type) == Some(None::<TsStream>),
{
}

/// Whether every stream of a map stands under its own PID and has a coding type that
/// is decoded.
pub open spec fn well_keyed(m: Map<u16, TsStream>) -> bool {
    forall|pid: u16| #[trigger]
        m.contains_key(pid) ==> {
            &&& m[pid].common().pid.raw == pid
            &&& !(m[pid].common().stream_type is MvcVideo)
            &&& !(m[pid].common().stream_type is Unknown)
        }
}

proof fn lemma_entries_well_keyed(d: Seq<u8>, off: int, n: nat, m: Map<u16, TsStream>)
    requires
        well_keyed(m),
    ensures
        match clip_entries(d, off, n, m) {
            Some((streams, _)) => well_keyed(streams),
            None => true,
        },
    decreases n,
{
    if n > 0 {
        match (rd16(d, off), rd8(d, off + 2), rd8(d, off + 3)) {
            (Some(pid), Some(len), Some(code)) => {
                let stream_type = type_of_code(code);
                match clip_stream(d, off + 2, stream_type) {
                    Some(stream) => {
                        lemma_entries_well_keyed(
                            d,
                            off + 3 + len,
                            (n - 1) as nat,
                            record(m, pid, stream, stream_type),
                        );
                    },
                    None => {},
                }
            },
            _ => {},
        }
    }
}

proof fn lemma_programs_well_keyed(d: Seq<u8>, off: int, n: nat, m: Map<u16, TsStream>)
    requires
        well_keyed(m),
    ensures
        match clip_programs(d, off, n, m) {
            Some(streams) => well_keyed(streams),
            None => true,
        },
    decreases n,
{
    if n > 0 {
        match rd8(d, off + 6) {
            Some(count) => {
                lemma_entries_well_keyed(d, off + 8, count as nat, m);
                match clip_entries(d, off + 8, count as nat, m) {
                    Some((streams, next)) => {
                        lemma_programs_well_keyed(d, next, (n - 1) as nat, streams);
                    },
                    None => {},
                }
            },
            None => {},
        }
    }
}

/// In every clip-information file that parses, each stream stands under its own PID,
/// and none has a type without a decoded form.
pub proof fn lemma_clip_streams_well_keyed(d: Seq<u8>)
    ensures
        match clip_streams(d) {
            Ok(streams) => well_keyed(streams),
            Err(_) => true,
        },
{
    match program_info(d) {
        Some(block) => match rd8(block, 1) {
            Some(count) => {
                lemma_programs_well_keyed(block, 2, count as nat, Map::empty());
            },
            None => {},
        },
        None => {},
    }
}

/// A PID that a later entry declares again has the later entry's stream.
pub proof fn lemma_redeclared_pid_is_overwritten(
    m: Map<u16, TsStream>,
    pid: u16,
    earlier: TsStream,
    earlier_type: TsStreamType,
    later: TsStream,
    later_type: TsStreamType,
)
    ensures
        record(
            record(m, pid, Some(earlier), earlier_type),
            pid,
            Some(later),
            later_type,
        ) == record(m, pid, Some(later), later_type),
{
    assert(record(
        record(m, pid, Some(earlier), earlier_type),
        pid,
        Some(later),
        later_type,
    ) =~= record(m, pid, Some(later), later_type));
}

} // verus!
