//! Merging what a scan found into the streams that the clip information declares.

use std::collections::BTreeMap;

use vstd::prelude::*;
use vstd::std_specs::btree::*;
use vstd::string::*;

use crate::maps::{lemma_keys_from_members, pids, sorted_keys};
use crate::stream::{
    copy_text, share_ids, TsAudioMode, TsAudioStream, TsGraphicsStream, TsStream, TsStreamBase,
    TsVideoStream,
};

verus! {

/// The larger of two numbers.
pub open spec fn max32(a: i32, b: i32) -> i32 {
    if a < b {
        b
    } else {
        a
    }
}

/// What the scanned `src` has to say of the declared `dst`, both of one coding type. The
/// declaration keeps its language and its picture format; the scan gives the profile, the
/// channels and the extensions, and an embedded core where there was none.
pub open spec fn merged_detail(dst: TsStream, src: TsStream) -> TsStream {
    match (dst, src) {
        (TsStream::Video(d), TsStream::Video(s)) => TsStream::Video(
            TsVideoStream {
                encoding_profile: s.encoding_profile,
                extended_data: s.extended_data,
                ..d
            },
        ),
        (TsStream::Audio(d), TsStream::Audio(s)) => TsStream::Audio(
            TsAudioStream {
                channel_count: max32(d.channel_count, s.channel_count),
                lfe: max32(d.lfe, s.lfe),
                sample_rate: max32(d.sample_rate, s.sample_rate),
                bit_depth: max32(d.bit_depth, s.bit_depth),
                dial_norm: if s.dial_norm < d.dial_norm {
                    s.dial_norm
                } else {
                    d.dial_norm
                },
                audio_mode: if s.audio_mode is Unknown {
                    d.audio_mode
                } else {
                    s.audio_mode
                },
                has_extensions: s.has_extensions,
                ext_data: s.ext_data,
                core_stream: if d.core_stream is Some {
                    d.core_stream
                } else {
                    s.core_stream
                },
                ..d
            },
        ),
        (TsStream::Graphics(d), TsStream::Graphics(s)) => TsStream::Graphics(
            TsGraphicsStream {
                captions: s.captions,
                forced_captions: s.forced_captions,
                caption_ids: s.caption_ids,
                width: s.width,
                height: s.height,
                ..d
            },
        ),
        _ => dst,
    }
}

/// The declared `dst` after the scanned `src` has been merged in. Of two coding types the
/// declared one stands, and nothing is merged.
pub open spec fn merged(dst: TsStream, src: TsStream) -> TsStream {
    if dst.common().stream_type != src.common().stream_type {
        dst
    } else {
        merged_detail(
            dst.with_common(
                TsStreamBase {
                    bit_rate: if dst.common().bit_rate < src.common().bit_rate {
                        src.common().bit_rate
                    } else {
                        dst.common().bit_rate
                    },
                    is_vbr: src.common().is_vbr,
                    ..dst.common()
                },
            ),
            src,
        )
    }
}

/// Whether a scanned stream takes part in a merge: every one does, or only the graphics.
pub open spec fn takes_part(src: TsStream, graphics_only: bool) -> bool {
    !graphics_only || src is Graphics
}

/// The declared streams after the scanned ones of the same PIDs have been merged in.
pub open spec fn merged_map(
    dst: Map<u16, TsStream>,
    src: Map<u16, TsStream>,
    graphics_only: bool,
) -> Map<u16, TsStream> {
    Map::new(
        |pid: u16| dst.contains_key(pid),
        |pid: u16|
            if src.contains_key(pid) && takes_part(src[pid], graphics_only) {
                merged(dst[pid], src[pid])
            } else {
                dst[pid]
            },
    )
}

/// The larger of two numbers.
fn larger(a: i32, b: i32) -> (r: i32)
    ensures
        r == max32(a, b),
{
    if a < b {
        b
    } else {
        a
    }
}

/// A copy of an embedded core.
fn copy_core(core: &Option<Box<TsAudioStream>>) -> (r: Option<Box<TsAudioStream>>)
    ensures
        r == *core,
{
    match core {
        Some(c) => Some(Box::new(c.duplicate())),
        None => None,
    }
}

/// Merges the scanned `src` into the declared `dst`.
pub fn merge_stream(dst: &mut TsStream, src: &TsStream)
    ensures
        *final(dst) == merged(*old(dst), *src),
{
    if dst.stream_type() != src.stream_type() {
        return;
    }
    let mut base = *dst.base();
    if base.bit_rate < src.base().bit_rate {
        base.bit_rate = src.base().bit_rate;
    }
    base.is_vbr = src.base().is_vbr;
    dst.set_base(base);
    match (dst, src) {
        (TsStream::Video(d), TsStream::Video(s)) => {
            d.encoding_profile = copy_text(&s.encoding_profile);
            d.extended_data = copy_text(&s.extended_data);
        },
        (TsStream::Audio(d), TsStream::Audio(s)) => {
            d.channel_count = larger(d.channel_count, s.channel_count);
            d.lfe = larger(d.lfe, s.lfe);
            d.sample_rate = larger(d.sample_rate, s.sample_rate);
            d.bit_depth = larger(d.bit_depth, s.bit_depth);
            if s.dial_norm < d.dial_norm {
                d.dial_norm = s.dial_norm;
            }
            if !matches!(s.audio_mode, TsAudioMode::Unknown) {
                d.audio_mode = s.audio_mode;
            }
            d.has_extensions = s.has_extensions;
            d.ext_data = copy_text(&s.ext_data);
            if d.core_stream.is_none() {
                d.core_stream = copy_core(&s.core_stream);
            }
        },
        (TsStream::Graphics(d), TsStream::Graphics(s)) => {
            d.captions = s.captions;
            d.forced_captions = s.forced_captions;
            d.caption_ids = share_ids(&s.caption_ids);
            d.width = s.width;
            d.height = s.height;
        },
        _ => {},
    }
}

/// Merges the scanned streams into the declared ones of the same PIDs: all of them, or
/// only the graphics. A PID that is not declared is passed over.
pub fn merge_matching(
    dst: &mut BTreeMap<u16, TsStream>,
    src: &BTreeMap<u16, TsStream>,
    graphics_only: bool,
)
    ensures
        final(dst)@ == merged_map(old(dst)@, src@, graphics_only),
{
    broadcast use group_btree_axioms;

    let ghost was = dst@;
    let keys = pids(src);
    proof {
        lemma_keys_from_members(src@.dom(), 0);
    }
    let mut i: usize = 0;
    while i < keys.len()
        invariant
            i <= keys@.len(),
            keys@ == sorted_keys(src@.dom()),
            forall|a: int, b: int| 0 <= a < b < keys@.len() ==> keys@[a] < keys@[b],
            forall|a: int| 0 <= a < keys@.len() ==> src@.dom().contains(#[trigger] keys@[a]),
            forall|x: u16| #[trigger] src@.dom().contains(x) ==> keys@.contains(x),
            dst@.dom() == was.dom(),
            forall|pid: u16| #[trigger]
                was.contains_key(pid) ==> dst@[pid] == (if exists|k: int|
                    0 <= k < i && #[trigger] keys@[k] == pid {
                    merged_map(was, src@, graphics_only)[pid]
                } else {
                    was[pid]
                }),
        decreases keys@.len() - i,
    {
        let pid: u16 = keys[i];
        assert(src@.dom().contains(keys@[i as int]));
        let ghost before = dst@;
        if let Some(stream) = src.get(&pid) {
            let keep = !graphics_only || matches!(stream, TsStream::Graphics(_));
            if keep {
                if let Some(mut target) = dst.remove(&pid) {
                    proof {
                        assert(was.contains_key(pid)) by {
                            assert(before.dom().contains(pid));
                        }
                    }
                    merge_stream(&mut target, stream);
                    dst.insert(pid, target);
                    proof {
                        assert(dst@.dom() =~= was.dom());
                        assert(dst@ =~= before.insert(pid, dst@[pid]));
                    }
                } else {
                    proof {
                        assert(dst@ =~= before);
                    }
                }
            }
        }
        proof {
            assert forall|q: u16| #[trigger] was.contains_key(q) implies dst@[q] == (
            if exists|k: int| 0 <= k < i + 1 && #[trigger] keys@[k] == q {
                merged_map(was, src@, graphics_only)[q]
            } else {
                was[q]
            }) by {
                if q == pid {
                    assert(keys@[i as int] == q);
                    if exists|k: int| 0 <= k < i && #[trigger] keys@[k] == q {
                        let k = choose|k: int| 0 <= k < i && #[trigger] keys@[k] == q;
                        assert(keys@[k] < keys@[i as int]);
                    }
                } else {
                    assert(dst@[q] == before[q]);
                    if exists|k: int| 0 <= k < i && #[trigger] keys@[k] == q {
                        let k = choose|k: int| 0 <= k < i && #[trigger] keys@[k] == q;
                        assert(0 <= k < i + 1 && keys@[k] == q);
                    }
                }
            }
        }
        i = i + 1;
    }
    proof {
        assert forall|q: u16| #[trigger] was.contains_key(q) implies dst@[q] == merged_map(
            was,
            src@,
            graphics_only,
        )[q] by {
            if src@.contains_key(q) {
                assert(src@.dom().contains(q));
                assert(keys@.contains(q));
                let k = choose|k: int| 0 <= k < keys@.len() && keys@[k] == q;
                assert(0 <= k < i && keys@[k] == q);
            }
        }
        assert(dst@ =~= merged_map(was, src@, graphics_only));
    }
}

/// A merge never changes which PIDs there are, nor the coding type, the PID or the
/// language of any of them.
pub proof fn lemma_merge_keeps_the_declaration(
    dst: Map<u16, TsStream>,
    src: Map<u16, TsStream>,
    graphics_only: bool,
)
    ensures
        merged_map(dst, src, graphics_only).dom() == dst.dom(),
        forall|pid: u16| #[trigger]
            dst.contains_key(pid) ==> {
                let a = dst[pid].common();
                let b = merged_map(dst, src, graphics_only)[pid].common();
                &&& b.stream_type == a.stream_type
                &&& b.pid == a.pid
                &&& b.language_code == a.language_code
                &&& b.bit_rate >= a.bit_rate
            },
{
    assert(merged_map(dst, src, graphics_only).dom() =~= dst.dom());
}

} // verus!
