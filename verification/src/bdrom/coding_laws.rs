//! What the coding info of a stream entry says, and which code stands for what.

use vstd::prelude::*;

use super::coded_stream;
use super::layout::{lemma_stands_each, stands};
use crate::bytes::ascii_char;
use crate::stream::{
    aspect_of_code, format_of_code, height_of, hertz_of_code, interlaced, kind_of, layout_of_code,
    rate_of_code, type_of_code, LanguageCode, TsAspectRatio, TsChannelLayout, TsFrameRate, TsStream,
    TsStreamType, TsVideoFormat,
};

verus! {

// ---- codes ----

/// The code that a coding type is written with; an unknown one has none.
pub open spec fn code_of_type(t: TsStreamType) -> Option<u8> {
    match t {
        TsStreamType::Unknown => None,
        TsStreamType::Mpeg1Video => Some(1),
        TsStreamType::Mpeg2Video => Some(2),
        TsStreamType::Mpeg1Audio => Some(3),
        TsStreamType::Mpeg2Audio => Some(4),
        TsStreamType::Mpeg2AacAudio => Some(15),
        TsStreamType::Mpeg4AacAudio => Some(17),
        TsStreamType::AvcVideo => Some(27),
        TsStreamType::MvcVideo => Some(32),
        TsStreamType::HevcVideo => Some(36),
        TsStreamType::LpcmAudio => Some(128),
        TsStreamType::Ac3Audio => Some(129),
        TsStreamType::DtsAudio => Some(130),
        TsStreamType::Ac3TrueHdAudio => Some(131),
        TsStreamType::Ac3PlusAudio => Some(132),
        TsStreamType::DtsHdAudio => Some(133),
        TsStreamType::DtsHdMasterAudio => Some(134),
        TsStreamType::PresentationGraphics => Some(144),
        TsStreamType::InteractiveGraphics => Some(145),
        TsStreamType::Subtitle => Some(146),
        TsStreamType::Ac3PlusSecondaryAudio => Some(161),
        TsStreamType::DtsHdSecondaryAudio => Some(162),
        TsStreamType::Vc1Video => Some(234),
    }
}

/// A code stands for the coding type that is written with it, and one that no type is written
/// with for none that is known.
pub proof fn lemma_type_codes_read_back(t: TsStreamType, code: u8)
    ensures
        code_of_type(t) is Some ==> type_of_code(code_of_type(t)->Some_0) == t,
        !(type_of_code(code) is Unknown) ==> code_of_type(type_of_code(code)) == Some(code),
{
}

/// The code that a picture format is written with.
pub open spec fn code_of_format(f: TsVideoFormat) -> Option<u8> {
    match f {
        TsVideoFormat::Unknown => None,
        TsVideoFormat::Videoformat480i => Some(1),
        TsVideoFormat::Videoformat576i => Some(2),
        TsVideoFormat::Videoformat480p => Some(3),
        TsVideoFormat::Videoformat1080i => Some(4),
        TsVideoFormat::Videoformat720p => Some(5),
        TsVideoFormat::Videoformat1080p => Some(6),
        TsVideoFormat::Videoformat576p => Some(7),
        TsVideoFormat::Videoformat2160p => Some(8),
    }
}

/// A code stands for the picture format that is written with it, and any other for none that
/// is known. A format without a height is unknown, an interlaced one is of one of three
/// heights, and one of 720 or 2160 lines never is interlaced.
pub proof fn lemma_format_codes_read_back(f: TsVideoFormat, code: u8)
    ensures
        code_of_format(f) is Some ==> format_of_code(code_of_format(f)->Some_0) == f,
        !(format_of_code(code) is Unknown) ==> code_of_format(format_of_code(code)) == Some(code),
        height_of(f) == 0 <==> f is Unknown,
        interlaced(f) ==> height_of(f) == 480 || height_of(f) == 576 || height_of(f) == 1080,
        height_of(f) == 480 <==> f is Videoformat480i || f is Videoformat480p,
        height_of(f) == 576 <==> f is Videoformat576i || f is Videoformat576p,
        height_of(f) == 720 <==> f is Videoformat720p,
        height_of(f) == 1080 <==> f is Videoformat1080i || f is Videoformat1080p,
        height_of(f) == 2160 <==> f is Videoformat2160p,
        (f is Videoformat480i || f is Videoformat576i || f is Videoformat1080i) ==> interlaced(f),
        (f is Videoformat480p || f is Videoformat576p || f is Videoformat1080p) ==> !interlaced(f),
{
}

/// The code that a frame rate is written with.
pub open spec fn code_of_rate(r: TsFrameRate) -> Option<u8> {
    match r {
        TsFrameRate::Unknown => None,
        TsFrameRate::Framerate23_976 => Some(1),
        TsFrameRate::Framerate24 => Some(2),
        TsFrameRate::Framerate25 => Some(3),
        TsFrameRate::Framerate29_97 => Some(4),
        TsFrameRate::Framerate50 => Some(6),
        TsFrameRate::Framerate59_94 => Some(7),
    }
}

/// A code stands for the frame rate that is written with it, and any other for none that is
/// known.
pub proof fn lemma_rate_codes_read_back(r: TsFrameRate, code: u8)
    ensures
        code_of_rate(r) is Some ==> rate_of_code(code_of_rate(r)->Some_0) == r,
        !(rate_of_code(code) is Unknown) ==> code_of_rate(rate_of_code(code)) == Some(code),
{
}

/// The code that an aspect ratio is written with.
pub open spec fn code_of_aspect(a: TsAspectRatio) -> Option<u8> {
    match a {
        TsAspectRatio::Unknown => None,
        TsAspectRatio::Aspect4_3 => Some(2),
        TsAspectRatio::Aspect16_9 => Some(3),
        TsAspectRatio::Aspect2_21 => Some(4),
    }
}

/// The code that a channel layout is written with.
pub open spec fn code_of_layout(l: TsChannelLayout) -> Option<u8> {
    match l {
        TsChannelLayout::Unknown => None,
        TsChannelLayout::ChannellayoutMono => Some(1),
        TsChannelLayout::ChannellayoutStereo => Some(3),
        TsChannelLayout::ChannellayoutMulti => Some(6),
        TsChannelLayout::ChannellayoutCombo => Some(12),
    }
}

/// A code stands for the aspect ratio, or the channel layout, that is written with it, and
/// any other for none that is known. A sample rate is 48, 96 or 192 kHz; the two codes of a
/// combined rate give that of the high-rate part.
pub proof fn lemma_other_codes_read_back(a: TsAspectRatio, l: TsChannelLayout, code: u8)
    ensures
        code_of_aspect(a) is Some ==> aspect_of_code(code_of_aspect(a)->Some_0) == a,
        !(aspect_of_code(code) is Unknown) ==> code_of_aspect(aspect_of_code(code)) == Some(code),
        code_of_layout(l) is Some ==> layout_of_code(code_of_layout(l)->Some_0) == l,
        !(layout_of_code(code) is Unknown) ==> code_of_layout(layout_of_code(code)) == Some(code),
        hertz_of_code(code) == 48_000 <==> code == 1,
        hertz_of_code(code) == 96_000 <==> code == 4 || code == 14,
        hertz_of_code(code) == 192_000 <==> code == 5 || code == 12,
        hertz_of_code(code) == 0 || hertz_of_code(code) == 48_000 || hertz_of_code(code) == 96_000
            || hertz_of_code(code) == 192_000,
{
}

/// Every known coding type is one of video, audio, graphics or text, and no two of them.
pub proof fn lemma_kinds_of_types(t: TsStreamType)
    ensures
        kind_of(t) is Unknown <==> t is Unknown,
        kind_of(t) is Video <==> t is Mpeg1Video || t is Mpeg2Video || t is AvcVideo || t is MvcVideo
            || t is HevcVideo || t is Vc1Video,
        kind_of(t) is Graphics <==> t is PresentationGraphics || t is InteractiveGraphics,
        kind_of(t) is Text <==> t is Subtitle,
        kind_of(t) is Audio <==> t is Mpeg1Audio || t is Mpeg2Audio || t is Mpeg2AacAudio
            || t is Mpeg4AacAudio || t is LpcmAudio || t is Ac3Audio || t is Ac3PlusAudio
            || t is Ac3PlusSecondaryAudio || t is Ac3TrueHdAudio || t is DtsAudio || t is DtsHdAudio
            || t is DtsHdMasterAudio || t is DtsHdSecondaryAudio,
{
}

// ---- coding info ----

/// Whether a language code is that of three bytes.
pub open spec fn spells(code: Option<LanguageCode>, a: u8, b: u8, c: u8) -> bool {
    &&& code is Some
    &&& code->Some_0.first == ascii_char(a)
    &&& code->Some_0.second == ascii_char(b)
    &&& code->Some_0.third == ascii_char(c)
}

/// Whether a stream is the one that the coding info `body` describes for a coding type. A
/// video stream has its picture format and its frame rate in the halves of the first byte,
/// and its aspect ratio, where there is one, in the high half of the second. An audio stream
/// has its channel layout and its sample rate in the halves of the first byte, and the
/// language behind. A graphics stream has the language at once, a text stream behind one
/// byte. Nothing else is known of it.
pub open spec fn describes(s: TsStream, t: TsStreamType, body: Seq<u8>, aspect: bool) -> bool {
    let c = s.common();
    &&& c.payload_bytes == 0 && c.packet_count == 0 && c.packet_ticks == 0
    &&& c.bit_rate == 0 && c.active_bit_rate == 0 && c.angle_index == 0
    &&& match s {
        TsStream::Video(v) => {
            &&& kind_of(t) is Video
            &&& v.video_format == format_of_code(body[0] / 16)
            &&& v.frame_rate == rate_of_code(body[0] % 16)
            &&& v.height == height_of(v.video_format)
            &&& v.is_interlaced == interlaced(v.video_format)
            &&& aspect ==> v.aspect_ratio == aspect_of_code(body[1] / 16)
            &&& !aspect ==> v.aspect_ratio is Unknown
            &&& v.encoding_profile is None && v.extended_data is None
            &&& c.language_code is None
        },
        TsStream::Audio(a) => {
            &&& kind_of(t) is Audio
            &&& a.channel_layout == layout_of_code(body[0] / 16)
            &&& a.sample_rate == hertz_of_code(body[0] % 16)
            &&& spells(c.language_code, body[1], body[2], body[3])
            &&& a.channel_count == 0 && a.bit_depth == 0 && a.core_stream is None
        },
        TsStream::Graphics(g) => {
            &&& kind_of(t) is Graphics
            &&& spells(c.language_code, body[0], body[1], body[2])
            &&& g.captions == 0 && g.forced_captions == 0 && g.width == 0 && g.height == 0
        },
        TsStream::Text(_) => {
            &&& kind_of(t) is Text
            &&& spells(c.language_code, body[1], body[2], body[3])
        },
    }
}

/// The coding info of a known type describes a stream of that type.
pub proof fn lemma_coding_info_describes_the_stream(
    d: Seq<u8>,
    coding: int,
    body: Seq<u8>,
    t: TsStreamType,
    aspect: bool,
)
    requires
        body.len() >= 4,
        stands(d, coding, body),
        !(t is Unknown),
    ensures
        ({
            let at = if aspect {
                Some(coding + 1)
            } else {
                None
            };
            let s = coded_stream(d, coding, t, at);
            s is Some && s->Some_0 is Some && describes(s->Some_0->Some_0, t, body, aspect)
        }),
{
    lemma_stands_each(d, coding, body);
    assert(d[coding + 0] == body[0] && d[coding + 1] == body[1] && d[coding + 2] == body[2]
        && d[coding + 3] == body[3]);
}

} // verus!
