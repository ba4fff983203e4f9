//! What a merge takes from the scanned stream, what it keeps of the declared one, and what
//! neither changes.

use vstd::prelude::*;

use super::merge::{merged, merged_map};
use crate::stream::TsStream;

verus! {

/// What every stream has after a merge: the PID, the coding type, the language, the angle,
/// the tallies and whether its detail is complete are the declared ones; whether the rate
/// varies is what the scan says; the rate is the larger one.
pub proof fn lemma_merging_the_common_part(dst: TsStream, src: TsStream)
    requires
        dst.common().stream_type == src.common().stream_type,
    ensures
        ({
            let d = dst.common();
            let s = src.common();
            let m = merged(dst, src).common();
            &&& m.pid == d.pid
            &&& m.stream_type == d.stream_type
            &&& m.language_code == d.language_code
            &&& m.descriptors == d.descriptors
            &&& m.angle_index == d.angle_index
            &&& m.is_initialized == d.is_initialized
            &&& m.payload_bytes == d.payload_bytes
            &&& m.packet_count == d.packet_count
            &&& m.packet_ticks == d.packet_ticks
            &&& m.active_bit_rate == d.active_bit_rate
            &&& m.is_vbr == s.is_vbr
            &&& m.bit_rate >= d.bit_rate && m.bit_rate >= s.bit_rate
            &&& m.bit_rate == d.bit_rate || m.bit_rate == s.bit_rate
        }),
{
}

/// A video stream has the profile and the extension data of the scanned stream, whatever
/// the declared one had, and the picture of the declared one, whatever the scan had.
pub proof fn lemma_merging_video(dst: TsStream, src: TsStream)
    requires
        dst.common().stream_type == src.common().stream_type,
        dst is Video,
        src is Video,
    ensures
        merged(dst, src) is Video,
        ({
            let d = dst->Video_0;
            let s = src->Video_0;
            let m = merged(dst, src)->Video_0;
            &&& m.encoding_profile == s.encoding_profile
            &&& m.extended_data == s.extended_data
            &&& m.video_format == d.video_format
            &&& m.height == d.height
            &&& m.is_interlaced == d.is_interlaced
            &&& m.frame_rate == d.frame_rate
            &&& m.aspect_ratio == d.aspect_ratio
        }),
{
}

/// An audio stream has the larger channel count, low-frequency channel count, sample rate
/// and bit depth of the two and the lower dialogue level, the extensions of the scanned
/// stream, its mode where that is known, and its core where the declared stream has none.
/// The channel layout stays the declared one.
pub proof fn lemma_merging_audio(dst: TsStream, src: TsStream)
    requires
        dst.common().stream_type == src.common().stream_type,
        dst is Audio,
        src is Audio,
    ensures
        merged(dst, src) is Audio,
        ({
            let d = dst->Audio_0;
            let s = src->Audio_0;
            let m = merged(dst, src)->Audio_0;
            &&& m.channel_count >= d.channel_count && m.channel_count >= s.channel_count
            &&& m.channel_count == d.channel_count || m.channel_count == s.channel_count
            &&& m.lfe >= d.lfe && m.lfe >= s.lfe
            &&& m.lfe == d.lfe || m.lfe == s.lfe
            &&& m.sample_rate >= d.sample_rate && m.sample_rate >= s.sample_rate
            &&& m.sample_rate == d.sample_rate || m.sample_rate == s.sample_rate
            &&& m.bit_depth >= d.bit_depth && m.bit_depth >= s.bit_depth
            &&& m.bit_depth == d.bit_depth || m.bit_depth == s.bit_depth
            &&& m.dial_norm <= d.dial_norm && m.dial_norm <= s.dial_norm
            &&& m.dial_norm == d.dial_norm || m.dial_norm == s.dial_norm
            &&& m.has_extensions == s.has_extensions
            &&& m.ext_data == s.ext_data
            &&& s.audio_mode is Unknown ==> m.audio_mode == d.audio_mode
            &&& !(s.audio_mode is Unknown) ==> m.audio_mode == s.audio_mode
            &&& d.core_stream is Some ==> m.core_stream == d.core_stream
            &&& d.core_stream is None ==> m.core_stream == s.core_stream
            &&& m.channel_layout == d.channel_layout
        }),
{
}

/// A graphics stream has the captions and the picture size of the scanned stream.
pub proof fn lemma_merging_graphics(dst: TsStream, src: TsStream)
    requires
        dst.common().stream_type == src.common().stream_type,
        dst is Graphics,
        src is Graphics,
    ensures
        merged(dst, src) is Graphics,
        ({
            let s = src->Graphics_0;
            let m = merged(dst, src)->Graphics_0;
            &&& m.captions == s.captions
            &&& m.forced_captions == s.forced_captions
            &&& m.caption_ids == s.caption_ids
            &&& m.width == s.width
            &&& m.height == s.height
        }),
{
}

/// A scanned stream of another coding type leaves the declared one as it was, and what was
/// merged in once is not changed by being merged in again.
pub proof fn lemma_merging_again_changes_nothing(dst: TsStream, src: TsStream)
    ensures
        dst.common().stream_type != src.common().stream_type ==> merged(dst, src) == dst,
        merged(merged(dst, src), src) == merged(dst, src),
{
}

/// A merge goes by PID. A declared stream whose PID was scanned is merged with the scanned
/// stream of that very PID; where graphics alone are merged, that is so of a scanned
/// graphics stream, and any other stays. A PID that was not scanned stays as it was
/// declared, and one that was not declared does not come in.
pub proof fn lemma_merging_goes_by_pid(
    dst: Map<u16, TsStream>,
    src: Map<u16, TsStream>,
    graphics_only: bool,
    pid: u16,
)
    ensures
        ({
            let m = merged_map(dst, src, graphics_only);
            &&& m.contains_key(pid) == dst.contains_key(pid)
            &&& dst.contains_key(pid) && !src.contains_key(pid) ==> m[pid] == dst[pid]
            &&& dst.contains_key(pid) && src.contains_key(pid) && (!graphics_only
                || src[pid] is Graphics) ==> m[pid] == merged(dst[pid], src[pid])
            &&& dst.contains_key(pid) && src.contains_key(pid) && graphics_only && !(
            src[pid] is Graphics) ==> m[pid] == dst[pid]
        }),
{
}

} // verus!
