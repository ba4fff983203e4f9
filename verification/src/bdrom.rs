//! BDMV metadata parsers: the small structural files under `BDMV/`, and what is
//! built over them.
//!
//! The clip-information and the playlist files describe a stream entry with the same
//! coding-info layout, each at its own offset; both decode it through
//! [`build_coded_stream`], beside the bounds-checked reads that every byte of a file
//! goes through.

use vstd::prelude::*;
use vstd::string::*;

pub mod catalog;
pub mod catalog_laws;
pub mod chapter_laws;
pub mod chapters;
pub mod clpi;
pub mod clpi_laws;
pub mod coding_laws;
pub mod credit;
pub mod demux_laws;
pub mod disc;
pub mod disc_laws;
pub mod discovery;
pub mod discovery_laws;
pub mod interleaved;
pub mod layout;
pub mod m2ts;
pub mod measure;
pub mod measured;
pub mod merge;
pub mod merge_laws;
pub mod mpls;
pub mod mpls_laws;
pub mod open;
pub mod open_laws;
pub mod packet_laws;
pub mod pass_laws;
pub mod passes;
pub mod peak_laws;
pub mod pes;
pub mod pes_laws;
pub mod present;
pub mod progress_laws;
pub mod psi;
pub mod psi_laws;
pub mod rate_laws;
pub mod rates;
pub mod report_laws;
pub mod resolve;
pub mod resolve_laws;
pub mod rom;
pub mod rom_laws;
pub mod row_laws;
pub mod scan;
pub mod scan_laws;
pub mod section_laws;
pub mod sink;
pub mod size_laws;
pub mod summarise;
pub mod summary_laws;
pub mod tally_laws;
pub mod title;
pub mod window_laws;
use crate::bytes;
use crate::bytes::{ascii_char, ascii_text, be16, be32};
use crate::error::BdError;
use crate::stream::{
    aspect_of_code, blank_audio, blank_base, blank_graphics, blank_text, blank_video,
    convert_sample_rate, format_of_code, height_of, hertz_of_code, interlaced, kind_of,
    layout_of_code, rate_of_code, LanguageCode, StreamKind, TsAspectRatio, TsAudioStream,
    TsChannelLayout, TsFrameRate, TsGraphicsStream, TsStream, TsStreamBase, TsStreamType,
    TsTextStream, TsVideoFormat, TsVideoStream,
};

verus! {

/// An offset as the parsers hold it: one past the reach of a `usize` stays at the
/// largest, which lies past the end of every buffer.
pub open spec fn sat(off: int) -> int {
    if off > usize::MAX {
        usize::MAX as int
    } else {
        off
    }
}

/// The byte at `off`; `None` past the end.
pub open spec fn rd8(d: Seq<u8>, off: int) -> Option<u8> {
    if 0 <= off < d.len() {
        Some(d[off])
    } else {
        None
    }
}

/// The big-endian 16-bit number at `off`; `None` past the end.
pub open spec fn rd16(d: Seq<u8>, off: int) -> Option<u16> {
    if 0 <= off && off + 2 <= d.len() {
        Some(be16(d, off))
    } else {
        None
    }
}

/// The big-endian 32-bit number at `off`; `None` past the end.
pub open spec fn rd32(d: Seq<u8>, off: int) -> Option<u32> {
    if 0 <= off && off + 4 <= d.len() {
        Some(be32(d, off))
    } else {
        None
    }
}

/// The `count` bytes at `off` as text; `None` past the end.
pub open spec fn rd_text(d: Seq<u8>, off: int, count: int) -> Option<Seq<char>> {
    if 0 <= off && off + count <= d.len() {
        Some(ascii_text(d.subrange(off, off + count)))
    } else {
        None
    }
}

/// The three-letter language code at `off`; `None` past the end.
pub open spec fn rd_language(d: Seq<u8>, off: int) -> Option<LanguageCode> {
    if 0 <= off && off + 3 <= d.len() {
        Some(
            LanguageCode {
                first: ascii_char(d[off]),
                second: ascii_char(d[off + 1]),
                third: ascii_char(d[off + 2]),
            },
        )
    } else {
        None
    }
}

/// What a read gives: the value that is there, or the end of the input.
pub open spec fn gives<T>(r: Result<T, BdError>, want: Option<T>) -> bool {
    match want {
        Some(v) => r == Ok::<T, BdError>(v),
        None => r == Err::<T, BdError>(BdError::UnexpectedEof),
    }
}

/// Reads the byte at `off`, or [`BdError::UnexpectedEof`] past the end.
pub fn byte(buf: &[u8], off: usize) -> (r: Result<u8, BdError>)
    ensures
        gives(r, rd8(buf@, off as int)),
{
    match bytes::read_u8(buf, off) {
        Some(v) => Ok(v),
        None => Err(BdError::UnexpectedEof),
    }
}

/// Reads a big-endian `u16` at `off`, or [`BdError::UnexpectedEof`].
pub fn u16_be(buf: &[u8], off: usize) -> (r: Result<u16, BdError>)
    ensures
        gives(r, rd16(buf@, off as int)),
{
    match bytes::read_u16_be(buf, off) {
        Some(v) => Ok(v),
        None => Err(BdError::UnexpectedEof),
    }
}

/// Reads a big-endian `u32` at `off`, or [`BdError::UnexpectedEof`].
pub fn u32_be(buf: &[u8], off: usize) -> (r: Result<u32, BdError>)
    ensures
        gives(r, rd32(buf@, off as int)),
{
    match bytes::read_u32_be(buf, off) {
        Some(v) => Ok(v),
        None => Err(BdError::UnexpectedEof),
    }
}

/// A 32-bit offset as a `usize`: one that does not fit is the largest there is.
pub fn offset(value: u32) -> (r: usize)
    ensures
        r as int == sat(value as int),
{
    if (value as u64) > (usize::MAX as u64) {
        usize::MAX
    } else {
        value as usize
    }
}

/// Reads a big-endian `u32` at `off` as an offset, or [`BdError::UnexpectedEof`].
/// A value larger than a `usize` becomes the largest one, which fails the next read.
pub fn u32_off(buf: &[u8], off: usize) -> (r: Result<usize, BdError>)
    ensures
        match rd32(buf@, off as int) {
            Some(v) => r is Ok && r->Ok_0 as int == sat(v as int),
            None => r == Err::<usize, BdError>(BdError::UnexpectedEof),
        },
{
    match bytes::read_u32_be(buf, off) {
        Some(v) => Ok(offset(v)),
        None => Err(BdError::UnexpectedEof),
    }
}

/// Reads `count` ASCII bytes at `off` (a non-ASCII byte reads `'?'`), or
/// [`BdError::UnexpectedEof`].
pub fn ascii(buf: &[u8], off: usize, count: usize) -> (r: Result<String, BdError>)
    ensures
        match rd_text(buf@, off as int, count as int) {
            Some(v) => r is Ok && r->Ok_0@ == v,
            None => r == Err::<String, BdError>(BdError::UnexpectedEof),
        },
{
    match bytes::read_ascii(buf, off, count) {
        Some(v) => Ok(v),
        None => Err(BdError::UnexpectedEof),
    }
}

/// Reads the three-letter language code at `off`, or [`BdError::UnexpectedEof`].
pub fn language(buf: &[u8], off: usize) -> (r: Result<LanguageCode, BdError>)
    ensures
        gives(r, rd_language(buf@, off as int)),
{
    let text = ascii(buf, off, 3)?;
    let s = text.as_str();
    Ok(LanguageCode { first: s.get_char(0), second: s.get_char(1), third: s.get_char(2) })
}

/// The stream that the coding info at `coding` describes for the coding type
/// `stream_type`: `None` where the input ends within it, `Some(None)` where the type
/// describes no stream.
pub open spec fn coded_stream(
    d: Seq<u8>,
    coding: int,
    stream_type: TsStreamType,
    aspect: Option<int>,
) -> Option<Option<TsStream>> {
    match kind_of(stream_type) {
        StreamKind::Video => match (
            rd8(d, coding),
            match aspect {
                Some(at) => rd8(d, at),
                None => Some(0u8),
            },
        ) {
            (Some(format), Some(ratio)) => Some(
                Some(
                    TsStream::Video(
                        TsVideoStream {
                            video_format: format_of_code(format / 16),
                            height: height_of(format_of_code(format / 16)),
                            is_interlaced: interlaced(format_of_code(format / 16)),
                            frame_rate: rate_of_code(format % 16),
                            aspect_ratio: aspect_of_code(ratio / 16),
                            ..blank_video()
                        },
                    ),
                ),
            ),
            _ => None,
        },
        StreamKind::Audio => match (rd8(d, coding), rd_language(d, coding + 1)) {
            (Some(format), Some(code)) => Some(
                Some(
                    TsStream::Audio(
                        TsAudioStream {
                            base: TsStreamBase { language_code: Some(code), ..blank_base() },
                            channel_layout: layout_of_code(format / 16),
                            sample_rate: hertz_of_code(format % 16),
                            ..blank_audio()
                        },
                    ),
                ),
            ),
            _ => None,
        },
        StreamKind::Graphics => match rd_language(d, coding) {
            Some(code) => Some(
                Some(
                    TsStream::Graphics(
                        TsGraphicsStream {
                            base: TsStreamBase {
                                language_code: Some(code),
                                ..blank_graphics().base
                            },
                            ..blank_graphics()
                        },
                    ),
                ),
            ),
            None => None,
        },
        StreamKind::Text => match rd_language(d, coding + 1) {
            Some(code) => Some(
                Some(
                    TsStream::Text(
                        TsTextStream {
                            base: TsStreamBase { language_code: Some(code), ..blank_text().base },
                        },
                    ),
                ),
            ),
            None => None,
        },
        StreamKind::Unknown => Some(None),
    }
}

/// Builds the [`TsStream`] that a coding type of `stream_type` describes, reading its
/// coding info from `data` at `coding`, or `None` for an unknown type.
///
/// The layout is a format byte for video and audio, then a three-letter language code
/// for audio (at `coding + 1`), graphics (at `coding`) and text (at `coding + 1`).
/// `aspect` names the byte that holds a video stream's aspect-ratio nibble, where there
/// is one.
pub fn build_coded_stream(
    data: &[u8],
    coding: usize,
    stream_type: TsStreamType,
    aspect: Option<usize>,
) -> (r: Result<Option<TsStream>, BdError>)
    ensures
        gives(
            r,
            coded_stream(
                data@,
                coding as int,
                stream_type,
                match aspect {
                    Some(at) => Some(at as int),
                    None => None,
                },
            ),
        ),
{
    assert(data.len() <= usize::MAX);
    match stream_type.kind() {
        StreamKind::Video => {
            let format: u8 = byte(data, coding)?;
            let mut stream = TsVideoStream::default();
            stream.set_video_format(TsVideoFormat::from_u8(format / 16));
            stream.set_frame_rate(TsFrameRate::from_u8(format % 16));
            if let Some(at) = aspect {
                let ratio: u8 = byte(data, at)?;
                stream.aspect_ratio = TsAspectRatio::from_u8(ratio / 16);
            }
            Ok(Some(TsStream::Video(stream)))
        },
        StreamKind::Audio => {
            let format: u8 = byte(data, coding)?;
            let code = language(data, coding.saturating_add(1))?;
            let mut stream = TsAudioStream::default();
            stream.channel_layout = TsChannelLayout::from_u8(format / 16);
            stream.sample_rate = convert_sample_rate(format % 16);
            stream.base.language_code = Some(code);
            Ok(Some(TsStream::Audio(stream)))
        },
        StreamKind::Graphics => {
            let code = language(data, coding)?;
            let mut stream = TsGraphicsStream::default();
            stream.base.language_code = Some(code);
            Ok(Some(TsStream::Graphics(stream)))
        },
        StreamKind::Text => {
            let code = language(data, coding.saturating_add(1))?;
            let mut stream = TsTextStream::default();
            stream.base.language_code = Some(code);
            Ok(Some(TsStream::Text(stream)))
        },
        StreamKind::Unknown => Ok(None),
    }
}

} // verus!
