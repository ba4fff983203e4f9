//! The report rows of a playlist's presented streams.

use std::collections::BTreeMap;

use vstd::prelude::*;
use vstd::std_specs::btree::*;
use vstd::string::*;

use super::merge::{merge_matching, merged_map};
use super::mpls::{PlaylistView, TsPlaylistFile};
use super::resolve::{reset_copy, MVC_PID};
use crate::maps::{lemma_keys_from_members, pids, sorted_keys};
use crate::primitives::Pid;
use crate::stream::{LanguageCode, TsStream, TsStreamBase, TsStreamType};
use crate::text::push_char;

verus! {

/// How streams are put into words: by default not at all. The report layer has its own
/// words; [`TypeNames`] are those that know nothing but the coding types.
pub trait StreamText {
    /// The short codec name.
    open spec fn short_name_of(&self, s: TsStream) -> Seq<char> {
        Seq::empty()
    }

    /// The long codec name.
    open spec fn name_of(&self, s: TsStream) -> Seq<char> {
        Seq::empty()
    }

    /// The alternate codec name.
    open spec fn alt_name_of(&self, s: TsStream) -> Seq<char> {
        Seq::empty()
    }

    /// The language's name.
    open spec fn language_of(&self, s: TsStream) -> Seq<char> {
        Seq::empty()
    }

    /// The description.
    open spec fn description_of(&self, s: TsStream) -> Seq<char> {
        Seq::empty()
    }

    /// The description with what only a full scan knows of a video stream.
    open spec fn full_description_of(&self, s: TsStream) -> Seq<char> {
        Seq::empty()
    }

    /// The channel layout of an audio stream.
    open spec fn channels_of(&self, s: TsStream) -> Seq<char> {
        Seq::empty()
    }

    /// The short codec name, such as `AVC`.
    fn codec_short_name(&self, s: &TsStream) -> (r: String)
        ensures
            r@ == self.short_name_of(*s),
    ;

    /// The long codec name, such as `MPEG-4 AVC Video`.
    fn codec_name(&self, s: &TsStream) -> (r: String)
        ensures
            r@ == self.name_of(*s),
    ;

    /// The alternate codec name that some tables print.
    fn codec_alt_name(&self, s: &TsStream) -> (r: String)
        ensures
            r@ == self.alt_name_of(*s),
    ;

    /// The language's name; asked for a stream that has a language code.
    fn language_name(&self, s: &TsStream) -> (r: String)
        ensures
            r@ == self.language_of(*s),
    ;

    /// The description: resolution and frame rate, channels and sample rate, captions.
    fn description(&self, s: &TsStream) -> (r: String)
        ensures
            r@ == self.description_of(*s),
    ;

    /// The description with what only a full scan knows of a video stream.
    fn full_description(&self, s: &TsStream) -> (r: String)
        ensures
            r@ == self.full_description_of(*s),
    ;

    /// The channel layout of an audio stream, such as `5.1`.
    fn channel_description(&self, s: &TsStream) -> (r: String)
        ensures
            r@ == self.channels_of(*s),
    ;
}

/// The name of a coding type.
pub open spec fn coding_name(t: TsStreamType) -> Seq<char> {
    match t {
        TsStreamType::Unknown => "UNKNOWN"@,
        TsStreamType::Mpeg1Video => "MPEG1_VIDEO"@,
        TsStreamType::Mpeg2Video => "MPEG2_VIDEO"@,
        TsStreamType::AvcVideo => "AVC_VIDEO"@,
        TsStreamType::MvcVideo => "MVC_VIDEO"@,
        TsStreamType::HevcVideo => "HEVC_VIDEO"@,
        TsStreamType::Vc1Video => "VC1_VIDEO"@,
        TsStreamType::Mpeg1Audio => "MPEG1_AUDIO"@,
        TsStreamType::Mpeg2Audio => "MPEG2_AUDIO"@,
        TsStreamType::Mpeg2AacAudio => "MPEG2_AAC_AUDIO"@,
        TsStreamType::Mpeg4AacAudio => "MPEG4_AAC_AUDIO"@,
        TsStreamType::LpcmAudio => "LPCM_AUDIO"@,
        TsStreamType::Ac3Audio => "AC3_AUDIO"@,
        TsStreamType::Ac3PlusAudio => "AC3_PLUS_AUDIO"@,
        TsStreamType::Ac3PlusSecondaryAudio => "AC3_PLUS_SECONDARY_AUDIO"@,
        TsStreamType::Ac3TrueHdAudio => "AC3_TRUE_HD_AUDIO"@,
        TsStreamType::DtsAudio => "DTS_AUDIO"@,
        TsStreamType::DtsHdAudio => "DTS_HD_AUDIO"@,
        TsStreamType::DtsHdMasterAudio => "DTS_HD_MASTER_AUDIO"@,
        TsStreamType::DtsHdSecondaryAudio => "DTS_HD_SECONDARY_AUDIO"@,
        TsStreamType::PresentationGraphics => "PRESENTATION_GRAPHICS"@,
        TsStreamType::InteractiveGraphics => "INTERACTIVE_GRAPHICS"@,
        TsStreamType::Subtitle => "SUBTITLE"@,
    }
}

impl TsStreamType {
    /// The name of the coding type.
    pub fn name(self) -> (r: &'static str)
        ensures
            r@ == coding_name(self),
    {
        match self {
            TsStreamType::Unknown => "UNKNOWN",
            TsStreamType::Mpeg1Video => "MPEG1_VIDEO",
            TsStreamType::Mpeg2Video => "MPEG2_VIDEO",
            TsStreamType::AvcVideo => "AVC_VIDEO",
            TsStreamType::MvcVideo => "MVC_VIDEO",
            TsStreamType::HevcVideo => "HEVC_VIDEO",
            TsStreamType::Vc1Video => "VC1_VIDEO",
            TsStreamType::Mpeg1Audio => "MPEG1_AUDIO",
            TsStreamType::Mpeg2Audio => "MPEG2_AUDIO",
            TsStreamType::Mpeg2AacAudio => "MPEG2_AAC_AUDIO",
            TsStreamType::Mpeg4AacAudio => "MPEG4_AAC_AUDIO",
            TsStreamType::LpcmAudio => "LPCM_AUDIO",
            TsStreamType::Ac3Audio => "AC3_AUDIO",
            TsStreamType::Ac3PlusAudio => "AC3_PLUS_AUDIO",
            TsStreamType::Ac3PlusSecondaryAudio => "AC3_PLUS_SECONDARY_AUDIO",
            TsStreamType::Ac3TrueHdAudio => "AC3_TRUE_HD_AUDIO",
            TsStreamType::DtsAudio => "DTS_AUDIO",
            TsStreamType::DtsHdAudio => "DTS_HD_AUDIO",
            TsStreamType::DtsHdMasterAudio => "DTS_HD_MASTER_AUDIO",
            TsStreamType::DtsHdSecondaryAudio => "DTS_HD_SECONDARY_AUDIO",
            TsStreamType::PresentationGraphics => "PRESENTATION_GRAPHICS",
            TsStreamType::InteractiveGraphics => "INTERACTIVE_GRAPHICS",
            TsStreamType::Subtitle => "SUBTITLE",
        }
    }
}

/// Words that know nothing but the coding types: every codec name is the type's name, and
/// there are no descriptions.
#[derive(Debug, Clone, Copy)]
pub struct TypeNames {}

impl StreamText for TypeNames {
    open spec fn short_name_of(&self, s: TsStream) -> Seq<char> {
        coding_name(s.common().stream_type)
    }

    open spec fn name_of(&self, s: TsStream) -> Seq<char> {
        coding_name(s.common().stream_type)
    }

    open spec fn alt_name_of(&self, s: TsStream) -> Seq<char> {
        coding_name(s.common().stream_type)
    }

    open spec fn language_of(&self, s: TsStream) -> Seq<char> {
        Seq::empty()
    }

    open spec fn description_of(&self, s: TsStream) -> Seq<char> {
        Seq::empty()
    }

    open spec fn full_description_of(&self, s: TsStream) -> Seq<char> {
        Seq::empty()
    }

    open spec fn channels_of(&self, s: TsStream) -> Seq<char> {
        Seq::empty()
    }

    fn codec_short_name(&self, s: &TsStream) -> (r: String) {
        s.stream_type().name().to_owned()
    }

    fn codec_name(&self, s: &TsStream) -> (r: String) {
        s.stream_type().name().to_owned()
    }

    fn codec_alt_name(&self, s: &TsStream) -> (r: String) {
        s.stream_type().name().to_owned()
    }

    fn language_name(&self, s: &TsStream) -> (r: String) {
        String::new()
    }

    fn description(&self, s: &TsStream) -> (r: String) {
        String::new()
    }

    fn full_description(&self, s: &TsStream) -> (r: String) {
        String::new()
    }

    fn channel_description(&self, s: &TsStream) -> (r: String) {
        String::new()
    }
}

/// One presented stream's report fields.
#[derive(Debug, PartialEq, Eq)]
pub struct StreamSummary {
    /// The packet identifier.
    pub pid: Pid,
    /// The coding type, by which a report chooses its table.
    pub stream_type: TsStreamType,
    /// The short codec name.
    pub codec_short_name: String,
    /// The long codec name.
    pub codec_name: String,
    /// The alternate codec name.
    pub codec_alt_name: String,
    /// The bit rate; `0` where nothing was scanned.
    pub bitrate: i64,
    /// The bit rate over the stream's own windows; `0` where nothing was scanned.
    pub active_bitrate: i64,
    /// The language's name, or nothing.
    pub language_name: String,
    /// The language's code, or nothing.
    pub language_code: String,
    /// The description.
    pub description: String,
    /// The description with the rates that only a full scan knows.
    pub full_description: String,
    /// The channel layout of an audio stream.
    pub channel_description: String,
    /// The sample rate of an audio stream, Hz.
    pub sample_rate: i32,
    /// The bit depth of an audio stream.
    pub bit_depth: i32,
    /// The channel count of an audio stream, the LFE channel left out.
    pub channel_count: i32,
    /// The picture height of a video stream, lines.
    pub height: i32,
    /// The extra camera angle that the row presents; `0` is the main presentation.
    pub angle_index: usize,
    /// Whether the playlist hides the stream: the clip has it, the playlist does not
    /// declare it.
    pub is_hidden: bool,
    /// Whether the stream is presented only through the interleaved source.
    pub ssif_only: bool,
}

/// What a [`StreamSummary`] holds.
pub struct StreamRow {
    pub pid: Pid,
    pub stream_type: TsStreamType,
    pub codec_short_name: Seq<char>,
    pub codec_name: Seq<char>,
    pub codec_alt_name: Seq<char>,
    pub bitrate: i64,
    pub active_bitrate: i64,
    pub language_name: Seq<char>,
    pub language_code: Seq<char>,
    pub description: Seq<char>,
    pub full_description: Seq<char>,
    pub channel_description: Seq<char>,
    pub sample_rate: i32,
    pub bit_depth: i32,
    pub channel_count: i32,
    pub height: i32,
    pub angle_index: usize,
    pub is_hidden: bool,
    pub ssif_only: bool,
}

impl View for StreamSummary {
    type V = StreamRow;

    open spec fn view(&self) -> StreamRow {
        StreamRow {
            pid: self.pid,
            stream_type: self.stream_type,
            codec_short_name: self.codec_short_name@,
            codec_name: self.codec_name@,
            codec_alt_name: self.codec_alt_name@,
            bitrate: self.bitrate,
            active_bitrate: self.active_bitrate,
            language_name: self.language_name@,
            language_code: self.language_code@,
            description: self.description@,
            full_description: self.full_description@,
            channel_description: self.channel_description@,
            sample_rate: self.sample_rate,
            bit_depth: self.bit_depth,
            channel_count: self.channel_count,
            height: self.height,
            angle_index: self.angle_index,
            is_hidden: self.is_hidden,
            ssif_only: self.ssif_only,
        }
    }
}

/// The views of a list of rows.
pub open spec fn row_views(rows: Seq<StreamSummary>) -> Seq<StreamRow> {
    rows.map_values(|r: StreamSummary| r@)
}

/// A language code as text; no code is no text.
pub open spec fn code_text(code: Option<LanguageCode>) -> Seq<char> {
    match code {
        Some(c) => seq![c.first, c.second, c.third],
        None => Seq::empty(),
    }
}

/// A stream's fields, before anything is known of where it is presented.
pub open spec fn plain_row<T: StreamText>(text: T, s: TsStream) -> StreamRow {
    StreamRow {
        pid: s.common().pid,
        stream_type: s.common().stream_type,
        codec_short_name: text.short_name_of(s),
        codec_name: text.name_of(s),
        codec_alt_name: text.alt_name_of(s),
        bitrate: 0,
        active_bitrate: 0,
        language_name: if s.common().language_code is Some {
            text.language_of(s)
        } else {
            Seq::empty()
        },
        language_code: code_text(s.common().language_code),
        description: text.description_of(s),
        full_description: text.description_of(s),
        channel_description: if s is Audio {
            text.channels_of(s)
        } else {
            Seq::empty()
        },
        sample_rate: match s {
            TsStream::Audio(a) => a.sample_rate,
            _ => 0,
        },
        bit_depth: match s {
            TsStream::Audio(a) => a.bit_depth,
            _ => 0,
        },
        channel_count: match s {
            TsStream::Audio(a) => a.channel_count,
            _ => 0,
        },
        height: match s {
            TsStream::Video(v) => v.height,
            _ => 0,
        },
        angle_index: 0,
        is_hidden: false,
        ssif_only: false,
    }
}

/// The full description of a stream with the row `r`: that of an audio stream has the
/// row's rate in it, that of a video stream is its own, any other is the row's
/// description.
pub open spec fn described<T: StreamText>(text: T, s: TsStream, r: StreamRow) -> Seq<char> {
    match s {
        TsStream::Audio(a) => if r.bitrate > 0 {
            text.description_of(
                s.with_common(TsStreamBase { bit_rate: r.bitrate, ..s.common() }),
            )
        } else {
            r.description
        },
        TsStream::Video(v) => text.full_description_of(s),
        _ => r.description,
    }
}

/// The row of a presented stream, with the rates of the measured one.
pub open spec fn row_of<T: StreamText>(
    text: T,
    s: TsStream,
    angle_index: usize,
    is_hidden: bool,
    ssif_only: bool,
    measured: Option<TsStream>,
) -> StreamRow {
    let r = StreamRow {
        is_hidden,
        ssif_only,
        angle_index,
        bitrate: match measured {
            Some(m) => m.common().bit_rate,
            None => 0,
        },
        active_bitrate: match measured {
            Some(m) => m.common().active_bit_rate,
            None => 0,
        },
        ..plain_row(text, s)
    };
    StreamRow { full_description: described(text, s, r), ..r }
}

/// The stream under `pid`, where there is one.
pub open spec fn stream_at(m: Map<u16, TsStream>, pid: u16) -> Option<TsStream> {
    if m.contains_key(pid) {
        Some(m[pid])
    } else {
        None
    }
}

/// The declared streams with what the scans have found of them.
pub open spec fn detailed(
    clip_streams: Map<u16, TsStream>,
    scanned: Option<Map<u16, TsStream>>,
    p: PlaylistView,
) -> Map<u16, TsStream> {
    let quick = match scanned {
        Some(found) => merged_map(clip_streams, found, false),
        None => clip_streams,
    };
    merged_map(quick, p.streams, true)
}

/// Whether the dependent view is presented without being declared.
pub open spec fn has_ssif_row(streams: Map<u16, TsStream>, p: PlaylistView) -> bool {
    !streams.contains_key(MVC_PID) && p.streams.contains_key(MVC_PID)
}

/// The streams that get rows.
pub open spec fn row_streams(streams: Map<u16, TsStream>, p: PlaylistView) -> Map<u16, TsStream> {
    if has_ssif_row(streams, p) {
        streams.insert(MVC_PID, reset_copy(p.streams[MVC_PID]))
    } else {
        streams
    }
}

/// The stream of `pid` that the `angle`th extra angle has.
pub open spec fn angle_stream(p: PlaylistView, angle: int, pid: u16) -> Option<TsStream> {
    if 0 <= angle < p.angle_streams.len() {
        stream_at(p.angle_streams[angle], pid)
    } else {
        None
    }
}

/// The rows of one stream for its first `n` extra angles.
pub open spec fn angle_rows<T: StreamText>(
    text: T,
    s: TsStream,
    pid: u16,
    is_hidden: bool,
    ssif_only: bool,
    p: PlaylistView,
    n: int,
) -> Seq<StreamRow> {
    Seq::new(
        n as nat,
        |i: int|
            row_of(text, s, (i + 1) as usize, is_hidden, ssif_only, angle_stream(p, i, pid)),
    )
}

/// The rows of one stream: the main one, and, for video, one per extra angle.
pub open spec fn stream_rows<T: StreamText>(
    text: T,
    s: TsStream,
    pid: u16,
    ssif_only: bool,
    p: PlaylistView,
    angle_count: int,
) -> Seq<StreamRow> {
    let is_hidden = !ssif_only && !p.playlist_streams.contains_key(pid);
    let main = seq![row_of(text, s, 0, is_hidden, ssif_only, stream_at(p.streams, pid))];
    if s.common().video() {
        main + angle_rows(text, s, pid, is_hidden, ssif_only, p, angle_count)
    } else {
        main
    }
}

/// The rows of the first `n` of the streams `pids`.
pub open spec fn rows_over<T: StreamText>(
    text: T,
    streams: Map<u16, TsStream>,
    pids: Seq<u16>,
    ssif: bool,
    p: PlaylistView,
    angle_count: int,
    n: int,
) -> Seq<StreamRow>
    decreases n,
{
    if n <= 0 {
        Seq::empty()
    } else {
        let pid = pids[n - 1];
        rows_over(text, streams, pids, ssif, p, angle_count, n - 1) + stream_rows(
            text,
            streams[pid],
            pid,
            ssif && pid == MVC_PID,
            p,
            angle_count,
        )
    }
}

/// A playlist's rows, in PID order: the streams of its reference clip with what the scans
/// have found, the dependent view where only the interleaved source has it, and for every
/// video stream one row per extra angle behind its main row.
pub open spec fn sorted_rows<T: StreamText>(
    text: T,
    clip_streams: Map<u16, TsStream>,
    scanned: Option<Map<u16, TsStream>>,
    p: PlaylistView,
    angle_count: int,
) -> Seq<StreamRow> {
    let streams = detailed(clip_streams, scanned, p);
    let all = row_streams(streams, p);
    let pids = sorted_keys(all.dom());
    rows_over(text, all, pids, has_ssif_row(streams, p), p, angle_count, pids.len() as int)
}

/// A language code as text.
fn language_text(code: &Option<LanguageCode>) -> (r: String)
    ensures
        r@ == code_text(*code),
{
    let mut out = String::new();
    if let Some(c) = code {
        push_char(&mut out, c.first);
        push_char(&mut out, c.second);
        push_char(&mut out, c.third);
        proof {
            assert(out@ =~= seq![c.first, c.second, c.third]);
        }
    }
    out
}

/// A stream's fields, before anything is known of where it is presented.
pub fn stream_summary<T: StreamText>(text: &T, stream: &TsStream) -> (r: StreamSummary)
    ensures
        r@ == plain_row(*text, *stream),
{
    let (channel_description, sample_rate, bit_depth, channel_count) = match stream {
        TsStream::Audio(a) => (
            text.channel_description(stream),
            a.sample_rate,
            a.bit_depth,
            a.channel_count,
        ),
        _ => (String::new(), 0, 0, 0),
    };
    let height: i32 = match stream {
        TsStream::Video(v) => v.height,
        _ => 0,
    };
    let language_name = if stream.base().language_code.is_some() {
        text.language_name(stream)
    } else {
        String::new()
    };
    let description = text.description(stream);
    StreamSummary {
        pid: stream.pid(),
        stream_type: stream.stream_type(),
        codec_short_name: text.codec_short_name(stream),
        codec_name: text.codec_name(stream),
        codec_alt_name: text.codec_alt_name(stream),
        bitrate: 0,
        active_bitrate: 0,
        language_name,
        language_code: language_text(&stream.base().language_code),
        full_description: description.clone(),
        description,
        channel_description,
        sample_rate,
        bit_depth,
        channel_count,
        height,
        angle_index: 0,
        is_hidden: false,
        ssif_only: false,
    }
}

/// The full description of a stream with the row `row`.
pub fn full_description<T: StreamText>(text: &T, stream: &TsStream, row: &StreamSummary) -> (r:
    String)
    ensures
        r@ == described(*text, *stream, row@),
{
    match stream {
        TsStream::Audio(_) => if row.bitrate > 0 {
            let mut patched = stream.duplicate();
            let mut base = *patched.base();
            base.bit_rate = row.bitrate;
            patched.set_base(base);
            text.description(&patched)
        } else {
            row.description.clone()
        },
        TsStream::Video(_) => text.full_description(stream),
        _ => row.description.clone(),
    }
}

/// The row of a presented stream, with the rates of the measured one.
pub fn stream_row<T: StreamText>(
    text: &T,
    stream: &TsStream,
    angle_index: usize,
    is_hidden: bool,
    ssif_only: bool,
    measured: Option<&TsStream>,
) -> (r: StreamSummary)
    ensures
        r@ == row_of(
            *text,
            *stream,
            angle_index,
            is_hidden,
            ssif_only,
            match measured {
                Some(m) => Some(*m),
                None => None,
            },
        ),
{
    let mut row = stream_summary(text, stream);
    row.is_hidden = is_hidden;
    row.ssif_only = ssif_only;
    row.angle_index = angle_index;
    if let Some(m) = measured {
        row.bitrate = m.base().bit_rate;
        row.active_bitrate = m.base().active_bit_rate;
    }
    let full = full_description(text, stream, &row);
    row.full_description = full;
    row
}

/// Copies a stream map.
fn copy_map(streams: &BTreeMap<u16, TsStream>) -> (r: BTreeMap<u16, TsStream>)
    ensures
        r@ == streams@,
{
    broadcast use group_btree_axioms;

    let keys = pids(streams);
    proof {
        lemma_keys_from_members(streams@.dom(), 0);
    }
    let mut out: BTreeMap<u16, TsStream> = BTreeMap::new();
    let mut i: usize = 0;
    while i < keys.len()
        invariant
            i <= keys@.len(),
            forall|a: int| 0 <= a < keys@.len() ==> streams@.dom().contains(#[trigger] keys@[a]),
            forall|x: u16| #[trigger] streams@.dom().contains(x) ==> keys@.contains(x),
            forall|k: int| 0 <= k < i ==> out@.contains_key(#[trigger] keys@[k]),
            forall|x: u16| #[trigger]
                out@.contains_key(x) ==> streams@.contains_key(x) && out@[x] == streams@[x],
        decreases keys@.len() - i,
    {
        let pid: u16 = keys[i];
        assert(streams@.dom().contains(keys@[i as int]));
        if let Some(stream) = streams.get(&pid) {
            out.insert(pid, stream.duplicate());
        }
        i = i + 1;
    }
    proof {
        assert forall|x: u16| streams@.contains_key(x) implies #[trigger] out@.contains_key(x) by {
            assert(streams@.dom().contains(x));
            assert(keys@.contains(x));
            let k = choose|k: int| 0 <= k < keys@.len() && keys@[k] == x;
            assert(out@.contains_key(keys@[k]));
        }
        assert(out@ =~= streams@);
    }
    out
}

/// Appends the rows of one stream.
fn add_rows<T: StreamText>(
    text: &T,
    stream: &TsStream,
    pid: u16,
    ssif_only: bool,
    playlist: &TsPlaylistFile,
    angle_count: usize,
    rows: &mut Vec<StreamSummary>,
)
    ensures
        row_views(final(rows)@) == row_views(old(rows)@) + stream_rows(
            *text,
            *stream,
            pid,
            ssif_only,
            playlist@,
            angle_count as int,
        ),
{
    broadcast use group_btree_axioms;

    let ghost p = playlist@;
    let ghost was = row_views(rows@);
    let is_hidden = !ssif_only && !playlist.playlist_streams.contains_key(&pid);
    let main = stream_row(text, stream, 0, is_hidden, ssif_only, playlist.streams.get(&pid));
    let ghost first = main@;
    assert(first == row_of(*text, *stream, 0, is_hidden, ssif_only, stream_at(p.streams, pid)));
    rows.push(main);
    proof {
        assert(row_views(rows@) =~= was + seq![first]);
    }
    if stream.base().is_video_stream() {
        let ghost base = row_views(rows@);
        let mut i: usize = 0;
        proof {
            assert(angle_rows(*text, *stream, pid, is_hidden, ssif_only, p, 0)
                =~= Seq::<StreamRow>::empty());
            assert(base + Seq::<StreamRow>::empty() =~= base);
        }
        while i < angle_count
            invariant
                i <= angle_count,
                p == playlist@,
                row_views(rows@) == base + angle_rows(
                    *text,
                    *stream,
                    pid,
                    is_hidden,
                    ssif_only,
                    p,
                    i as int,
                ),
            decreases angle_count - i,
        {
            let measured = if i < playlist.angle_streams.len() {
                assert(p.angle_streams[i as int] == playlist.angle_streams@[i as int]@);
                playlist.angle_streams[i].get(&pid)
            } else {
                None
            };
            let row = stream_row(text, stream, i + 1, is_hidden, ssif_only, measured);
            let ghost before = row_views(rows@);
            let ghost added = row@;
            rows.push(row);
            proof {
                assert(added == row_of(
                    *text,
                    *stream,
                    (i + 1) as usize,
                    is_hidden,
                    ssif_only,
                    angle_stream(p, i as int, pid),
                ));
                assert(row_views(rows@) =~= before.push(added));
                assert(angle_rows(*text, *stream, pid, is_hidden, ssif_only, p, i + 1)
                    =~= angle_rows(*text, *stream, pid, is_hidden, ssif_only, p, i as int).push(
                    added,
                ));
                assert(row_views(rows@) =~= base + angle_rows(
                    *text,
                    *stream,
                    pid,
                    is_hidden,
                    ssif_only,
                    p,
                    i + 1,
                ));
            }
            i = i + 1;
        }
        proof {
            assert(row_views(rows@) =~= was + (seq![first] + angle_rows(
                *text,
                *stream,
                pid,
                is_hidden,
                ssif_only,
                p,
                angle_count as int,
            )));
        }
    }
}

/// Builds a playlist's rows, in PID order.
pub fn build_sorted_streams<T: StreamText>(
    text: &T,
    clip_streams: &BTreeMap<u16, TsStream>,
    scanned: Option<&BTreeMap<u16, TsStream>>,
    playlist: &TsPlaylistFile,
    angle_count: usize,
) -> (r: Vec<StreamSummary>)
    ensures
        row_views(r@) == sorted_rows(
            *text,
            clip_streams@,
            match scanned {
                Some(found) => Some(found@),
                None => None,
            },
            playlist@,
            angle_count as int,
        ),
{
    broadcast use group_btree_axioms;

    let ghost p = playlist@;
    let mut streams = copy_map(clip_streams);
    if let Some(found) = scanned {
        merge_matching(&mut streams, found, false);
    }
    merge_matching(&mut streams, &playlist.streams, true);
    let ghost merged = streams@;
    let mvc: u16 = MVC_PID;
    let mut ssif = false;
    if !streams.contains_key(&mvc) {
        if let Some(view) = playlist.streams.get(&mvc) {
            streams.insert(mvc, view.ts_clone());
            ssif = true;
        }
    }
    let ghost all = streams@;
    assert(ssif == has_ssif_row(merged, p));
    assert(all == row_streams(merged, p));
    let keys = pids(&streams);
    proof {
        lemma_keys_from_members(all.dom(), 0);
    }
    let mut rows: Vec<StreamSummary> = Vec::new();
    let mut i: usize = 0;
    proof {
        assert(row_views(rows@) =~= Seq::<StreamRow>::empty());
    }
    while i < keys.len()
        invariant
            i <= keys@.len(),
            streams@ == all,
            mvc == MVC_PID,
            forall|a: int| 0 <= a < keys@.len() ==> all.dom().contains(#[trigger] keys@[a]),
            row_views(rows@) == rows_over(
                *text,
                all,
                keys@,
                ssif,
                playlist@,
                angle_count as int,
                i as int,
            ),
        decreases keys@.len() - i,
    {
        let pid: u16 = keys[i];
        assert(all.dom().contains(keys@[i as int]));
        if let Some(stream) = streams.get(&pid) {
            add_rows(text, stream, pid, ssif && pid == mvc, playlist, angle_count, &mut rows);
        }
        i = i + 1;
    }
    rows
}

} // verus!
