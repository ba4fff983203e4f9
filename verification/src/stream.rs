//! The elementary-stream model: coding types, their attribute codes, and the four
//! kinds of stream a disc presents.

use std::sync::Arc;

use vstd::prelude::*;
use vstd::string::*;

use crate::primitives::Pid;

verus! {

/// A stream's coding type.
#[derive(Debug, Clone, Copy, PartialEq, Eq, Structural)]
pub enum TsStreamType {
    Unknown,
    Mpeg1Video,
    Mpeg2Video,
    AvcVideo,
    MvcVideo,
    HevcVideo,
    Vc1Video,
    Mpeg1Audio,
    Mpeg2Audio,
    Mpeg2AacAudio,
    Mpeg4AacAudio,
    LpcmAudio,
    Ac3Audio,
    Ac3PlusAudio,
    Ac3PlusSecondaryAudio,
    Ac3TrueHdAudio,
    DtsAudio,
    DtsHdAudio,
    DtsHdMasterAudio,
    DtsHdSecondaryAudio,
    PresentationGraphics,
    InteractiveGraphics,
    Subtitle,
}

/// What a stream carries.
#[derive(Debug, Clone, Copy, PartialEq, Eq, Structural)]
pub enum StreamKind {
    Unknown,
    Video,
    Audio,
    Graphics,
    Text,
}

/// The coding type that a `stream_coding_type` byte names.
pub open spec fn type_of_code(code: u8) -> TsStreamType {
    match code {
        0x01 => TsStreamType::Mpeg1Video,
        0x02 => TsStreamType::Mpeg2Video,
        0x03 => TsStreamType::Mpeg1Audio,
        0x04 => TsStreamType::Mpeg2Audio,
        0x0F => TsStreamType::Mpeg2AacAudio,
        0x11 => TsStreamType::Mpeg4AacAudio,
        0x1B => TsStreamType::AvcVideo,
        0x20 => TsStreamType::MvcVideo,
        0x24 => TsStreamType::HevcVideo,
        0x80 => TsStreamType::LpcmAudio,
        0x81 => TsStreamType::Ac3Audio,
        0x82 => TsStreamType::DtsAudio,
        0x83 => TsStreamType::Ac3TrueHdAudio,
        0x84 => TsStreamType::Ac3PlusAudio,
        0x85 => TsStreamType::DtsHdAudio,
        0x86 => TsStreamType::DtsHdMasterAudio,
        0x90 => TsStreamType::PresentationGraphics,
        0x91 => TsStreamType::InteractiveGraphics,
        0x92 => TsStreamType::Subtitle,
        0xA1 => TsStreamType::Ac3PlusSecondaryAudio,
        0xA2 => TsStreamType::DtsHdSecondaryAudio,
        0xEA => TsStreamType::Vc1Video,
        _ => TsStreamType::Unknown,
    }
}

/// The kind of stream that a coding type describes.
pub open spec fn kind_of(stream_type: TsStreamType) -> StreamKind {
    match stream_type {
        TsStreamType::Mpeg1Video
        | TsStreamType::Mpeg2Video
        | TsStreamType::AvcVideo
        | TsStreamType::MvcVideo
        | TsStreamType::HevcVideo
        | TsStreamType::Vc1Video => StreamKind::Video,
        TsStreamType::Mpeg1Audio
        | TsStreamType::Mpeg2Audio
        | TsStreamType::Mpeg2AacAudio
        | TsStreamType::Mpeg4AacAudio
        | TsStreamType::LpcmAudio
        | TsStreamType::Ac3Audio
        | TsStreamType::Ac3PlusAudio
        | TsStreamType::Ac3PlusSecondaryAudio
        | TsStreamType::Ac3TrueHdAudio
        | TsStreamType::DtsAudio
        | TsStreamType::DtsHdAudio
        | TsStreamType::DtsHdMasterAudio
        | TsStreamType::DtsHdSecondaryAudio => StreamKind::Audio,
        TsStreamType::PresentationGraphics | TsStreamType::InteractiveGraphics => StreamKind::Graphics,
        TsStreamType::Subtitle => StreamKind::Text,
        TsStreamType::Unknown => StreamKind::Unknown,
    }
}

impl TsStreamType {
    /// The coding type that a `stream_coding_type` byte names.
    pub fn from_u8(code: u8) -> (r: Self)
        ensures
            r == type_of_code(code),
    {
        match code {
            0x01 => TsStreamType::Mpeg1Video,
            0x02 => TsStreamType::Mpeg2Video,
            0x03 => TsStreamType::Mpeg1Audio,
            0x04 => TsStreamType::Mpeg2Audio,
            0x0F => TsStreamType::Mpeg2AacAudio,
            0x11 => TsStreamType::Mpeg4AacAudio,
            0x1B => TsStreamType::AvcVideo,
            0x20 => TsStreamType::MvcVideo,
            0x24 => TsStreamType::HevcVideo,
            0x80 => TsStreamType::LpcmAudio,
            0x81 => TsStreamType::Ac3Audio,
            0x82 => TsStreamType::DtsAudio,
            0x83 => TsStreamType::Ac3TrueHdAudio,
            0x84 => TsStreamType::Ac3PlusAudio,
            0x85 => TsStreamType::DtsHdAudio,
            0x86 => TsStreamType::DtsHdMasterAudio,
            0x90 => TsStreamType::PresentationGraphics,
            0x91 => TsStreamType::InteractiveGraphics,
            0x92 => TsStreamType::Subtitle,
            0xA1 => TsStreamType::Ac3PlusSecondaryAudio,
            0xA2 => TsStreamType::DtsHdSecondaryAudio,
            0xEA => TsStreamType::Vc1Video,
            _ => TsStreamType::Unknown,
        }
    }

    /// The kind of stream that this coding type describes.
    pub fn kind(self) -> (r: StreamKind)
        ensures
            r == kind_of(self),
    {
        match self {
            TsStreamType::Mpeg1Video
            | TsStreamType::Mpeg2Video
            | TsStreamType::AvcVideo
            | TsStreamType::MvcVideo
            | TsStreamType::HevcVideo
            | TsStreamType::Vc1Video => StreamKind::Video,
            TsStreamType::Mpeg1Audio
            | TsStreamType::Mpeg2Audio
            | TsStreamType::Mpeg2AacAudio
            | TsStreamType::Mpeg4AacAudio
            | TsStreamType::LpcmAudio
            | TsStreamType::Ac3Audio
            | TsStreamType::Ac3PlusAudio
            | TsStreamType::Ac3PlusSecondaryAudio
            | TsStreamType::Ac3TrueHdAudio
            | TsStreamType::DtsAudio
            | TsStreamType::DtsHdAudio
            | TsStreamType::DtsHdMasterAudio
            | TsStreamType::DtsHdSecondaryAudio => StreamKind::Audio,
            TsStreamType::PresentationGraphics
            | TsStreamType::InteractiveGraphics => StreamKind::Graphics,
            TsStreamType::Subtitle => StreamKind::Text,
            TsStreamType::Unknown => StreamKind::Unknown,
        }
    }
}

/// A video stream's picture format.
#[derive(Debug, Clone, Copy, PartialEq, Eq, Structural)]
pub enum TsVideoFormat {
    Unknown,
    Videoformat480i,
    Videoformat576i,
    Videoformat480p,
    Videoformat1080i,
    Videoformat720p,
    Videoformat1080p,
    Videoformat576p,
    Videoformat2160p,
}

/// The picture format that a format nibble names.
pub open spec fn format_of_code(code: u8) -> TsVideoFormat {
    match code {
        1 => TsVideoFormat::Videoformat480i,
        2 => TsVideoFormat::Videoformat576i,
        3 => TsVideoFormat::Videoformat480p,
        4 => TsVideoFormat::Videoformat1080i,
        5 => TsVideoFormat::Videoformat720p,
        6 => TsVideoFormat::Videoformat1080p,
        7 => TsVideoFormat::Videoformat576p,
        8 => TsVideoFormat::Videoformat2160p,
        _ => TsVideoFormat::Unknown,
    }
}

/// The picture height of a format, in lines; `0` when it is unknown.
pub open spec fn height_of(format: TsVideoFormat) -> i32 {
    match format {
        TsVideoFormat::Unknown => 0,
        TsVideoFormat::Videoformat480i | TsVideoFormat::Videoformat480p => 480,
        TsVideoFormat::Videoformat576i | TsVideoFormat::Videoformat576p => 576,
        TsVideoFormat::Videoformat720p => 720,
        TsVideoFormat::Videoformat1080i | TsVideoFormat::Videoformat1080p => 1080,
        TsVideoFormat::Videoformat2160p => 2160,
    }
}

/// Whether a format is interlaced.
pub open spec fn interlaced(format: TsVideoFormat) -> bool {
    format is Videoformat480i || format is Videoformat576i || format is Videoformat1080i
}

impl TsVideoFormat {
    /// The picture format that a format nibble names.
    pub fn from_u8(code: u8) -> (r: Self)
        ensures
            r == format_of_code(code),
    {
        match code {
            1 => TsVideoFormat::Videoformat480i,
            2 => TsVideoFormat::Videoformat576i,
            3 => TsVideoFormat::Videoformat480p,
            4 => TsVideoFormat::Videoformat1080i,
            5 => TsVideoFormat::Videoformat720p,
            6 => TsVideoFormat::Videoformat1080p,
            7 => TsVideoFormat::Videoformat576p,
            8 => TsVideoFormat::Videoformat2160p,
            _ => TsVideoFormat::Unknown,
        }
    }
}

/// A video stream's frame rate.
#[derive(Debug, Clone, Copy, PartialEq, Eq, Structural)]
pub enum TsFrameRate {
    Unknown,
    Framerate23_976,
    Framerate24,
    Framerate25,
    Framerate29_97,
    Framerate50,
    Framerate59_94,
}

/// The frame rate that a rate nibble names.
pub open spec fn rate_of_code(code: u8) -> TsFrameRate {
    match code {
        1 => TsFrameRate::Framerate23_976,
        2 => TsFrameRate::Framerate24,
        3 => TsFrameRate::Framerate25,
        4 => TsFrameRate::Framerate29_97,
        6 => TsFrameRate::Framerate50,
        7 => TsFrameRate::Framerate59_94,
        _ => TsFrameRate::Unknown,
    }
}

impl TsFrameRate {
    /// The frame rate that a rate nibble names.
    pub fn from_u8(code: u8) -> (r: Self)
        ensures
            r == rate_of_code(code),
    {
        match code {
            1 => TsFrameRate::Framerate23_976,
            2 => TsFrameRate::Framerate24,
            3 => TsFrameRate::Framerate25,
            4 => TsFrameRate::Framerate29_97,
            6 => TsFrameRate::Framerate50,
            7 => TsFrameRate::Framerate59_94,
            _ => TsFrameRate::Unknown,
        }
    }
}

/// A video stream's display aspect ratio.
#[derive(Debug, Clone, Copy, PartialEq, Eq, Structural)]
pub enum TsAspectRatio {
    Unknown,
    Aspect4_3,
    Aspect16_9,
    Aspect2_21,
}

/// The aspect ratio that an aspect nibble names.
pub open spec fn aspect_of_code(code: u8) -> TsAspectRatio {
    match code {
        2 => TsAspectRatio::Aspect4_3,
        3 => TsAspectRatio::Aspect16_9,
        4 => TsAspectRatio::Aspect2_21,
        _ => TsAspectRatio::Unknown,
    }
}

impl TsAspectRatio {
    /// The aspect ratio that an aspect nibble names.
    pub fn from_u8(code: u8) -> (r: Self)
        ensures
            r == aspect_of_code(code),
    {
        match code {
            2 => TsAspectRatio::Aspect4_3,
            3 => TsAspectRatio::Aspect16_9,
            4 => TsAspectRatio::Aspect2_21,
            _ => TsAspectRatio::Unknown,
        }
    }
}

/// An audio stream's channel layout.
#[derive(Debug, Clone, Copy, PartialEq, Eq, Structural)]
pub enum TsChannelLayout {
    Unknown,
    ChannellayoutMono,
    ChannellayoutStereo,
    ChannellayoutMulti,
    ChannellayoutCombo,
}

/// The channel layout that a layout nibble names.
pub open spec fn layout_of_code(code: u8) -> TsChannelLayout {
    match code {
        1 => TsChannelLayout::ChannellayoutMono,
        3 => TsChannelLayout::ChannellayoutStereo,
        6 => TsChannelLayout::ChannellayoutMulti,
        12 => TsChannelLayout::ChannellayoutCombo,
        _ => TsChannelLayout::Unknown,
    }
}

impl TsChannelLayout {
    /// The channel layout that a layout nibble names.
    pub fn from_u8(code: u8) -> (r: Self)
        ensures
            r == layout_of_code(code),
    {
        match code {
            1 => TsChannelLayout::ChannellayoutMono,
            3 => TsChannelLayout::ChannellayoutStereo,
            6 => TsChannelLayout::ChannellayoutMulti,
            12 => TsChannelLayout::ChannellayoutCombo,
            _ => TsChannelLayout::Unknown,
        }
    }
}

/// The sample rate in Hz that a sample-rate nibble names; `0` when it is unknown.
pub open spec fn hertz_of_code(code: u8) -> i32 {
    match code {
        1 => 48_000,
        4 | 14 => 96_000,
        5 | 12 => 192_000,
        _ => 0,
    }
}

/// The sample rate in Hz that a sample-rate nibble names; `0` when it is unknown.
pub fn convert_sample_rate(code: u8) -> (r: i32)
    ensures
        r == hertz_of_code(code),
{
    match code {
        1 => 48_000,
        4 | 14 => 96_000,
        5 | 12 => 192_000,
        _ => 0,
    }
}

/// How an audio stream's channels are coded.
#[derive(Debug, Clone, Copy, PartialEq, Eq, Structural)]
pub enum TsAudioMode {
    Unknown,
    DualMono,
    Stereo,
    Surround,
    Extended,
    JointStereo,
    Mono,
}

/// A three-letter ISO-639 language code.
#[derive(Debug, Clone, Copy, PartialEq, Eq, Structural)]
pub struct LanguageCode {
    /// The first letter.
    pub first: char,
    /// The second letter.
    pub second: char,
    /// The third letter.
    pub third: char,
}

/// What every stream has, whatever it carries.
#[derive(Debug, Clone, Copy, PartialEq, Eq, Structural)]
pub struct TsStreamBase {
    /// The packet identifier.
    pub pid: Pid,
    /// The coding type.
    pub stream_type: TsStreamType,
    /// Whether the bit rate varies.
    pub is_vbr: bool,
    /// Whether the stream's codec detail is complete.
    pub is_initialized: bool,
    /// The bit rate, bits per second.
    pub bit_rate: i64,
    /// The bit rate over the stream's own windows, bits per second.
    pub active_bit_rate: i64,
    /// Demultiplexed payload bytes.
    pub payload_bytes: u64,
    /// Transport packets.
    pub packet_count: u64,
    /// Demultiplexed duration, ticks.
    pub packet_ticks: i128,
    /// The camera angle this copy of the stream belongs to; `0` is the main one.
    pub angle_index: i32,
    /// The language, when one is declared.
    pub language_code: Option<LanguageCode>,
    /// How many descriptors the program table gave, when it gave the stream.
    pub descriptors: Option<usize>,
}

/// A base with nothing known of it.
pub open spec fn blank_base() -> TsStreamBase {
    TsStreamBase {
        pid: Pid { raw: 0 },
        stream_type: TsStreamType::Unknown,
        is_vbr: false,
        is_initialized: false,
        bit_rate: 0,
        active_bit_rate: 0,
        payload_bytes: 0,
        packet_count: 0,
        packet_ticks: 0,
        angle_index: 0,
        language_code: None,
        descriptors: None,
    }
}

/// A base with its measurements and its angle cleared.
pub open spec fn unmeasured(base: TsStreamBase) -> TsStreamBase {
    TsStreamBase {
        active_bit_rate: 0,
        payload_bytes: 0,
        packet_count: 0,
        packet_ticks: 0,
        angle_index: 0,
        ..base
    }
}

impl Default for TsStreamBase {
    fn default() -> (r: Self)
        ensures
            r == blank_base(),
    {
        TsStreamBase {
            pid: Pid { raw: 0 },
            stream_type: TsStreamType::Unknown,
            is_vbr: false,
            is_initialized: false,
            bit_rate: 0,
            active_bit_rate: 0,
            payload_bytes: 0,
            packet_count: 0,
            packet_ticks: 0,
            angle_index: 0,
            language_code: None,
            descriptors: None,
        }
    }
}

impl TsStreamBase {
    /// Whether the coding type is a video type.
    pub open spec fn video(self) -> bool {
        kind_of(self.stream_type) is Video
    }

    /// Whether the coding type is an audio type.
    pub open spec fn audio(self) -> bool {
        kind_of(self.stream_type) is Audio
    }

    /// Whether the coding type is a graphics type.
    pub open spec fn graphics(self) -> bool {
        kind_of(self.stream_type) is Graphics
    }

    /// Whether the coding type is a video type.
    pub fn is_video_stream(&self) -> (r: bool)
        ensures
            r == self.video(),
    {
        matches!(self.stream_type.kind(), StreamKind::Video)
    }

    /// Whether the coding type is an audio type.
    pub fn is_audio_stream(&self) -> (r: bool)
        ensures
            r == self.audio(),
    {
        matches!(self.stream_type.kind(), StreamKind::Audio)
    }

    /// Whether the coding type is a graphics type.
    pub fn is_graphics_stream(&self) -> (r: bool)
        ensures
            r == self.graphics(),
    {
        matches!(self.stream_type.kind(), StreamKind::Graphics)
    }

    /// Sets the language to the three letters of `code`; a text of another length names
    /// none.
    pub fn set_language_code(&mut self, code: &str)
        ensures
            *final(self) == (TsStreamBase {
                language_code: if code@.len() == 3 {
                    Some(LanguageCode { first: code@[0], second: code@[1], third: code@[2] })
                } else {
                    None
                },
                ..*old(self)
            }),
    {
        self.language_code = if code.unicode_len() == 3 {
            Some(
                LanguageCode {
                    first: code.get_char(0),
                    second: code.get_char(1),
                    third: code.get_char(2),
                },
            )
        } else {
            None
        };
    }

    /// The base with its measurements and its angle cleared.
    fn reset(&self) -> (r: TsStreamBase)
        ensures
            r == unmeasured(*self),
    {
        TsStreamBase {
            active_bit_rate: 0,
            payload_bytes: 0,
            packet_count: 0,
            packet_ticks: 0,
            angle_index: 0,
            ..*self
        }
    }
}

/// A copy of an optional text.
pub fn copy_text(t: &Option<String>) -> (r: Option<String>)
    ensures
        r == *t,
{
    match t {
        Some(s) => Some(s.clone()),
        None => None,
    }
}

/// A video stream.
#[derive(Debug, PartialEq, Eq)]
pub struct TsVideoStream {
    /// What every stream has.
    pub base: TsStreamBase,
    /// The picture format.
    pub video_format: TsVideoFormat,
    /// The picture height, lines.
    pub height: i32,
    /// Whether the picture is interlaced.
    pub is_interlaced: bool,
    /// The frame rate.
    pub frame_rate: TsFrameRate,
    /// The display aspect ratio.
    pub aspect_ratio: TsAspectRatio,
    /// The codec's profile and level.
    pub encoding_profile: Option<String>,
    /// The codec's further detail (HDR and its like).
    pub extended_data: Option<String>,
}

/// A video stream with nothing known of it.
pub open spec fn blank_video() -> TsVideoStream {
    TsVideoStream {
        base: blank_base(),
        video_format: TsVideoFormat::Unknown,
        height: 0,
        is_interlaced: false,
        frame_rate: TsFrameRate::Unknown,
        aspect_ratio: TsAspectRatio::Unknown,
        encoding_profile: None,
        extended_data: None,
    }
}

impl Default for TsVideoStream {
    fn default() -> (r: Self)
        ensures
            r == blank_video(),
    {
        TsVideoStream {
            base: TsStreamBase::default(),
            video_format: TsVideoFormat::Unknown,
            height: 0,
            is_interlaced: false,
            frame_rate: TsFrameRate::Unknown,
            aspect_ratio: TsAspectRatio::Unknown,
            encoding_profile: None,
            extended_data: None,
        }
    }
}

impl TsVideoStream {
    /// Sets the picture format, and the height and scan that follow from it.
    pub fn set_video_format(&mut self, format: TsVideoFormat)
        ensures
            *final(self) == (TsVideoStream {
                video_format: format,
                height: height_of(format),
                is_interlaced: interlaced(format),
                ..*old(self)
            }),
    {
        self.video_format = format;
        self.height = match format {
            TsVideoFormat::Unknown => 0,
            TsVideoFormat::Videoformat480i | TsVideoFormat::Videoformat480p => 480,
            TsVideoFormat::Videoformat576i | TsVideoFormat::Videoformat576p => 576,
            TsVideoFormat::Videoformat720p => 720,
            TsVideoFormat::Videoformat1080i | TsVideoFormat::Videoformat1080p => 1080,
            TsVideoFormat::Videoformat2160p => 2160,
        };
        self.is_interlaced = matches!(
            format,
            TsVideoFormat::Videoformat480i | TsVideoFormat::Videoformat576i
                | TsVideoFormat::Videoformat1080i
        );
    }

    /// Sets the frame rate.
    pub fn set_frame_rate(&mut self, rate: TsFrameRate)
        ensures
            *final(self) == (TsVideoStream { frame_rate: rate, ..*old(self) }),
    {
        self.frame_rate = rate;
    }

    /// The frame rate.
    pub fn frame_rate(&self) -> (r: TsFrameRate)
        ensures
            r == self.frame_rate,
    {
        self.frame_rate
    }
}

/// An audio stream.
#[derive(Debug, PartialEq, Eq)]
pub struct TsAudioStream {
    /// What every stream has.
    pub base: TsStreamBase,
    /// The channel layout the disc declares.
    pub channel_layout: TsChannelLayout,
    /// How the channels are coded.
    pub audio_mode: TsAudioMode,
    /// The channel count, the LFE channel left out.
    pub channel_count: i32,
    /// The LFE channel count.
    pub lfe: i32,
    /// The sample rate, Hz.
    pub sample_rate: i32,
    /// The bit depth.
    pub bit_depth: i32,
    /// The dialogue normalisation, dB.
    pub dial_norm: i32,
    /// Whether the stream carries codec extensions.
    pub has_extensions: bool,
    /// The extensions' own detail.
    pub ext_data: Option<String>,
    /// The embedded core stream, where there is one.
    pub core_stream: Option<Box<TsAudioStream>>,
}

/// An audio stream with nothing known of it.
pub open spec fn blank_audio() -> TsAudioStream {
    TsAudioStream {
        base: blank_base(),
        channel_layout: TsChannelLayout::Unknown,
        audio_mode: TsAudioMode::Unknown,
        channel_count: 0,
        lfe: 0,
        sample_rate: 0,
        bit_depth: 0,
        dial_norm: 0,
        has_extensions: false,
        ext_data: None,
        core_stream: None,
    }
}

impl Default for TsAudioStream {
    fn default() -> (r: Self)
        ensures
            r == blank_audio(),
    {
        TsAudioStream {
            base: TsStreamBase::default(),
            channel_layout: TsChannelLayout::Unknown,
            audio_mode: TsAudioMode::Unknown,
            channel_count: 0,
            lfe: 0,
            sample_rate: 0,
            bit_depth: 0,
            dial_norm: 0,
            has_extensions: false,
            ext_data: None,
            core_stream: None,
        }
    }
}

impl TsAudioStream {
    /// A copy of the stream, its core included.
    pub fn duplicate(&self) -> (r: TsAudioStream)
        ensures
            r == *self,
        decreases self,
    {
        let core_stream = match &self.core_stream {
            Some(core) => Some(Box::new(core.duplicate())),
            None => None,
        };
        TsAudioStream {
            base: self.base,
            channel_layout: self.channel_layout,
            audio_mode: self.audio_mode,
            channel_count: self.channel_count,
            lfe: self.lfe,
            sample_rate: self.sample_rate,
            bit_depth: self.bit_depth,
            dial_norm: self.dial_norm,
            has_extensions: self.has_extensions,
            ext_data: copy_text(&self.ext_data),
            core_stream,
        }
    }
}

/// The same ids.
pub fn share_ids(ids: &Option<Arc<Vec<u32>>>) -> (r: Option<Arc<Vec<u32>>>)
    ensures
        r == *ids,
{
    match ids {
        Some(list) => Some(list.clone()),
        None => None,
    }
}

/// A graphics (subtitle or menu) stream.
#[derive(Debug, PartialEq, Eq)]
pub struct TsGraphicsStream {
    /// What every stream has.
    pub base: TsStreamBase,
    /// How many captions the stream carries.
    pub captions: i32,
    /// How many of them are forced.
    pub forced_captions: i32,
    /// The ids of the captions seen so far, once there are any; copies share them.
    pub caption_ids: Option<Arc<Vec<u32>>>,
    /// The picture width.
    pub width: i32,
    /// The picture height.
    pub height: i32,
}

/// A graphics stream with nothing known of it: its rate always varies.
pub open spec fn blank_graphics() -> TsGraphicsStream {
    TsGraphicsStream {
        base: TsStreamBase { is_vbr: true, ..blank_base() },
        captions: 0,
        forced_captions: 0,
        caption_ids: None,
        width: 0,
        height: 0,
    }
}

impl Default for TsGraphicsStream {
    fn default() -> (r: Self)
        ensures
            r == blank_graphics(),
    {
        TsGraphicsStream {
            base: TsStreamBase { is_vbr: true, ..TsStreamBase::default() },
            captions: 0,
            forced_captions: 0,
            caption_ids: None,
            width: 0,
            height: 0,
        }
    }
}

/// A text-subtitle stream.
#[derive(Debug, PartialEq, Eq)]
pub struct TsTextStream {
    /// What every stream has.
    pub base: TsStreamBase,
}

/// A text stream with nothing known of it: its rate always varies, and there is
/// no codec detail to wait for.
pub open spec fn blank_text() -> TsTextStream {
    TsTextStream { base: TsStreamBase { is_vbr: true, is_initialized: true, ..blank_base() } }
}

impl Default for TsTextStream {
    fn default() -> (r: Self)
        ensures
            r == blank_text(),
    {
        TsTextStream {
            base: TsStreamBase { is_vbr: true, is_initialized: true, ..TsStreamBase::default() },
        }
    }
}

/// One elementary stream.
#[derive(Debug, PartialEq, Eq)]
pub enum TsStream {
    Video(TsVideoStream),
    Audio(TsAudioStream),
    Graphics(TsGraphicsStream),
    Text(TsTextStream),
}

impl Clone for TsStream {
    fn clone(&self) -> (r: Self)
        ensures
            r == *self,
    {
        self.duplicate()
    }
}

impl TsStream {
    /// What every stream has.
    pub open spec fn common(self) -> TsStreamBase {
        match self {
            TsStream::Video(s) => s.base,
            TsStream::Audio(s) => s.base,
            TsStream::Graphics(s) => s.base,
            TsStream::Text(s) => s.base,
        }
    }

    /// The stream with `base` in place of its own.
    pub open spec fn with_common(self, base: TsStreamBase) -> TsStream {
        match self {
            TsStream::Video(s) => TsStream::Video(TsVideoStream { base, ..s }),
            TsStream::Audio(s) => TsStream::Audio(TsAudioStream { base, ..s }),
            TsStream::Graphics(s) => TsStream::Graphics(TsGraphicsStream { base, ..s }),
            TsStream::Text(s) => TsStream::Text(TsTextStream { base }),
        }
    }

    /// What every stream has.
    pub fn base(&self) -> (r: &TsStreamBase)
        ensures
            *r == self.common(),
    {
        match self {
            TsStream::Video(s) => &s.base,
            TsStream::Audio(s) => &s.base,
            TsStream::Graphics(s) => &s.base,
            TsStream::Text(s) => &s.base,
        }
    }

    /// Puts `base` in place of the stream's own.
    pub fn set_base(&mut self, base: TsStreamBase)
        ensures
            *final(self) == old(self).with_common(base),
    {
        match self {
            TsStream::Video(s) => {
                s.base = base;
            },
            TsStream::Audio(s) => {
                s.base = base;
            },
            TsStream::Graphics(s) => {
                s.base = base;
            },
            TsStream::Text(s) => {
                s.base = base;
            },
        }
    }

    /// The coding type.
    pub fn stream_type(&self) -> (r: TsStreamType)
        ensures
            r == self.common().stream_type,
    {
        self.base().stream_type
    }

    /// The packet identifier.
    pub fn pid(&self) -> (r: Pid)
        ensures
            r == self.common().pid,
    {
        self.base().pid
    }

    /// A copy of the stream.
    pub fn duplicate(&self) -> (r: TsStream)
        ensures
            r == *self,
    {
        match self {
            TsStream::Video(s) => TsStream::Video(
                TsVideoStream {
                    base: s.base,
                    video_format: s.video_format,
                    height: s.height,
                    is_interlaced: s.is_interlaced,
                    frame_rate: s.frame_rate,
                    aspect_ratio: s.aspect_ratio,
                    encoding_profile: copy_text(&s.encoding_profile),
                    extended_data: copy_text(&s.extended_data),
                },
            ),
            TsStream::Audio(s) => TsStream::Audio(s.duplicate()),
            TsStream::Graphics(s) => TsStream::Graphics(
                TsGraphicsStream {
                    base: s.base,
                    captions: s.captions,
                    forced_captions: s.forced_captions,
                    caption_ids: share_ids(&s.caption_ids),
                    width: s.width,
                    height: s.height,
                },
            ),
            TsStream::Text(s) => TsStream::Text(TsTextStream { base: s.base }),
        }
    }

    /// A copy of the stream with its measurements and its angle cleared.
    pub fn ts_clone(&self) -> (r: TsStream)
        ensures
            r == self.with_common(unmeasured(self.common())),
    {
        let mut copy = self.duplicate();
        copy.set_base(self.base().reset());
        copy
    }
}

/// A stream is its parts: reading the base back after setting it gives what was
/// set, and setting the base that a stream has already changes nothing.
pub proof fn lemma_common_round_trip(stream: TsStream, base: TsStreamBase)
    ensures
        stream.with_common(base).common() == base,
        stream.with_common(stream.common()) == stream,
{
}

} // verus!
