//! Which rows a playlist's streams have, and what they say.

use vstd::prelude::*;

use super::merge::merged;
use super::mpls::PlaylistView;
use super::present::{
    angle_stream, detailed, has_ssif_row, row_of, row_streams, rows_over, sorted_rows, stream_rows,
    StreamRow, StreamText,
};
use super::resolve::{reset_copy, MVC_PID};
use crate::maps::{lemma_keys_from_members, sorted_keys};
use crate::stream::{TsStream, TsStreamBase};

verus! {

/// A row says of its stream what is known of it, in the caller's words: the PID, the type, the
/// names, the language, and what an audio or a video stream has besides. The rates are those
/// of the measured stream, and nothing where none was measured.
#[verifier::rlimit(50)]
pub proof fn lemma_what_a_row_says<T: StreamText>(
    text: T,
    s: TsStream,
    angle: usize,
    is_hidden: bool,
    ssif_only: bool,
    measured: Option<TsStream>,
)
    ensures
        ({
            let r = row_of(text, s, angle, is_hidden, ssif_only, measured);
            let c = s.common();
            &&& r.pid == c.pid
            &&& r.stream_type == c.stream_type
            &&& r.codec_short_name == text.short_name_of(s)
            &&& r.codec_name == text.name_of(s)
            &&& r.codec_alt_name == text.alt_name_of(s)
            &&& r.description == text.description_of(s)
            &&& c.language_code is None ==> r.language_name.len() == 0 && r.language_code.len() == 0
            &&& c.language_code is Some ==> r.language_name == text.language_of(s)
                && r.language_code == seq![
                c.language_code->Some_0.first,
                c.language_code->Some_0.second,
                c.language_code->Some_0.third,
            ]
            &&& r.angle_index == angle
            &&& r.is_hidden == is_hidden
            &&& r.ssif_only == ssif_only
            &&& measured is Some ==> r.bitrate == measured->Some_0.common().bit_rate
                && r.active_bitrate == measured->Some_0.common().active_bit_rate
            &&& measured is None ==> r.bitrate == 0 && r.active_bitrate == 0
            &&& s is Audio ==> {
                &&& r.sample_rate == s->Audio_0.sample_rate
                &&& r.bit_depth == s->Audio_0.bit_depth
                &&& r.channel_count == s->Audio_0.channel_count
                &&& r.channel_description == text.channels_of(s)
                &&& r.height == 0
                &&& r.bitrate > 0 ==> r.full_description == text.description_of(
                    s.with_common(TsStreamBase { bit_rate: r.bitrate, ..c }),
                )
                &&& r.bitrate <= 0 ==> r.full_description == text.description_of(s)
            }
            &&& s is Video ==> r.height == s->Video_0.height && r.full_description
                == text.full_description_of(s)
            &&& !(s is Audio) ==> r.sample_rate == 0 && r.bit_depth == 0 && r.channel_count == 0
                && r.channel_description.len() == 0
            &&& !(s is Video) ==> r.height == 0
            &&& !(s is Audio) && !(s is Video) ==> r.full_description == text.description_of(s)
        }),
{
}

/// The streams that get rows are those that the reference clip declares, with what the scan
/// found of them and the captions that the playlist has; and besides the dependent view of a
/// 3D pair, where the playlist presents it and the clip does not declare it.
pub proof fn lemma_which_streams_get_rows(
    clip_streams: Map<u16, TsStream>,
    scanned: Option<Map<u16, TsStream>>,
    p: PlaylistView,
    pid: u16,
)
    ensures
        ({
            let streams = detailed(clip_streams, scanned, p);
            let all = row_streams(streams, p);
            let declared = clip_streams.contains_key(pid);
            let view = pid == 0x1012 && !declared && p.streams.contains_key(pid);
            let quick = if scanned is Some && scanned->Some_0.contains_key(pid) {
                merged(clip_streams[pid], scanned->Some_0[pid])
            } else {
                clip_streams[pid]
            };
            &&& streams.contains_key(pid) == declared
            &&& all.contains_key(pid) == (declared || view)
            &&& declared ==> all[pid] == (if p.streams.contains_key(pid)
                && p.streams[pid] is Graphics {
                merged(quick, p.streams[pid])
            } else {
                quick
            })
            &&& view ==> all[pid] == reset_copy(p.streams[pid])
            &&& has_ssif_row(streams, p) == (!clip_streams.contains_key(0x1012)
                && p.streams.contains_key(0x1012))
        }),
{
}

/// Whether a row is that of a stream, for the main presentation or for an extra angle: with
/// the rates that the playlist has of the PID there. A stream is hidden where the playlist
/// does not declare its PID; the view that only the interleaved source has never is.
pub open spec fn is_row_of<T: StreamText>(
    text: T,
    r: StreamRow,
    all: Map<u16, TsStream>,
    ssif: bool,
    p: PlaylistView,
    pid: u16,
    angle: int,
) -> bool {
    let only = ssif && pid == 0x1012;
    let measured = if angle == 0 {
        if p.streams.contains_key(pid) {
            Some(p.streams[pid])
        } else {
            None
        }
    } else if angle <= p.angle_streams.len() && p.angle_streams[angle - 1].contains_key(pid) {
        Some(p.angle_streams[angle - 1][pid])
    } else {
        None
    };
    r == row_of(
        text,
        all[pid],
        angle as usize,
        !only && !p.playlist_streams.contains_key(pid),
        only,
        measured,
    )
}

/// Whether one of the rows is that of a PID and an angle.
pub open spec fn row_there<T: StreamText>(
    text: T,
    rows: Seq<StreamRow>,
    all: Map<u16, TsStream>,
    ssif: bool,
    p: PlaylistView,
    pid: u16,
    angle: int,
) -> bool {
    exists|i: int|
        0 <= i < rows.len() && is_row_of(text, #[trigger] rows[i], all, ssif, p, pid, angle)
}

/// Whether a row is that of one of the first `n` PIDs, and of an angle.
spec fn row_known<T: StreamText>(
    text: T,
    r: StreamRow,
    all: Map<u16, TsStream>,
    ssif: bool,
    p: PlaylistView,
    pids: Seq<u16>,
    n: int,
    angle_count: int,
) -> bool {
    exists|k: int, a: int|
        0 <= k < n && 0 <= a <= angles_for(all, pids[k], angle_count) && #[trigger] is_row_of(
            text,
            r,
            all,
            ssif,
            p,
            pids[k],
            a,
        )
}

#[verifier::rlimit(50)]
proof fn lemma_rows<T: StreamText>(
    text: T,
    all: Map<u16, TsStream>,
    pids: Seq<u16>,
    ssif: bool,
    p: PlaylistView,
    angle_count: int,
    n: int,
)
    requires
        0 <= n <= pids.len(),
        angle_count >= 0,
    ensures
        ({
            let rows = rows_over(text, all, pids, ssif, p, angle_count, n);
            &&& forall|k: int, a: int|
                0 <= k < n && 0 <= a <= angles_for(all, pids[k], angle_count)
                    ==> #[trigger] row_there(text, rows, all, ssif, p, pids[k], a)
            &&& forall|i: int|
                0 <= i < rows.len() ==> row_known(
                    text,
                    #[trigger] rows[i],
                    all,
                    ssif,
                    p,
                    pids,
                    n,
                    angle_count,
                )
        }),
    decreases n,
{
    let rows = rows_over(text, all, pids, ssif, p, angle_count, n);
    if n > 0 {
        lemma_rows(text, all, pids, ssif, p, angle_count, n - 1);
        let before = rows_over(text, all, pids, ssif, p, angle_count, n - 1);
        let pid = pids[n - 1];
        let own = stream_rows(text, all[pid], pid, ssif && pid == MVC_PID, p, angle_count);
        assert(rows == before + own);
        assert forall|a: int| 0 <= a <= angles_for(all, pid, angle_count) implies is_row_of(
            text,
            #[trigger] own[a],
            all,
            ssif,
            p,
            pid,
            a,
        ) by {
            if a > 0 {
                assert(angle_stream(p, a - 1, pid) == (if a <= p.angle_streams.len()
                    && p.angle_streams[a - 1].contains_key(pid) {
                    Some(p.angle_streams[a - 1][pid])
                } else {
                    None
                }));
            }
        }
        assert(own.len() == 1 + angles_for(all, pid, angle_count));
        assert forall|k: int, a: int|
            0 <= k < n && 0 <= a <= angles_for(all, pids[k], angle_count) implies
            #[trigger] row_there(text, rows, all, ssif, p, pids[k], a) by {
            if k < n - 1 {
                assert(row_there(text, before, all, ssif, p, pids[k], a));
                let i = choose|i: int|
                    0 <= i < before.len() && is_row_of(
                        text,
                        #[trigger] before[i],
                        all,
                        ssif,
                        p,
                        pids[k],
                        a,
                    );
                assert(rows[i] == before[i]);
            } else {
                assert(rows[before.len() + a] == own[a]);
            }
        }
        assert forall|i: int| 0 <= i < rows.len() implies row_known(
            text,
            #[trigger] rows[i],
            all,
            ssif,
            p,
            pids,
            n,
            angle_count,
        ) by {
            if i < before.len() {
                assert(rows[i] == before[i]);
                assert(row_known(text, before[i], all, ssif, p, pids, n - 1, angle_count));
                let (k, a) = choose|k: int, a: int|
                    0 <= k < n - 1 && 0 <= a <= angles_for(all, pids[k], angle_count)
                        && #[trigger] is_row_of(text, before[i], all, ssif, p, pids[k], a);
                assert(is_row_of(text, rows[i], all, ssif, p, pids[k], a));
            } else {
                let a = i - before.len();
                assert(rows[i] == own[a]);
                assert(is_row_of(text, rows[i], all, ssif, p, pids[n - 1], a));
            }
        }
    }
}

/// How many extra angles a stream has rows for: all of them where it is a video stream.
pub open spec fn angles_for(all: Map<u16, TsStream>, pid: u16, angle_count: int) -> int {
    if all[pid].common().video() {
        angle_count
    } else {
        0
    }
}

/// Whether a row is that of a stream that gets rows, and of an angle that it has a row for.
pub open spec fn row_belongs<T: StreamText>(
    text: T,
    r: StreamRow,
    all: Map<u16, TsStream>,
    ssif: bool,
    p: PlaylistView,
    angle_count: int,
) -> bool {
    exists|q: u16, a: int|
        all.contains_key(q) && 0 <= a <= angles_for(all, q, angle_count) && #[trigger] is_row_of(
            text,
            r,
            all,
            ssif,
            p,
            q,
            a,
        )
}

/// Every stream that gets rows has one for the main presentation, and every video stream one
/// for each extra angle besides; and there are no other rows.
#[verifier::rlimit(50)]
pub proof fn lemma_every_stream_has_its_rows<T: StreamText>(
    text: T,
    clip_streams: Map<u16, TsStream>,
    scanned: Option<Map<u16, TsStream>>,
    p: PlaylistView,
    angle_count: int,
    pid: u16,
    angle: int,
)
    requires
        angle_count >= 0,
        row_streams(detailed(clip_streams, scanned, p), p).contains_key(pid),
        0 <= angle <= angles_for(
            row_streams(detailed(clip_streams, scanned, p), p),
            pid,
            angle_count,
        ),
    ensures
        ({
            let streams = detailed(clip_streams, scanned, p);
            let rows = sorted_rows(text, clip_streams, scanned, p, angle_count);
            &&& row_there(
                text,
                rows,
                row_streams(streams, p),
                has_ssif_row(streams, p),
                p,
                pid,
                angle,
            )
            &&& forall|i: int|
                0 <= i < rows.len() ==> row_belongs(
                    text,
                    #[trigger] rows[i],
                    row_streams(streams, p),
                    has_ssif_row(streams, p),
                    p,
                    angle_count,
                )
        }),
{
    let streams = detailed(clip_streams, scanned, p);
    let all = row_streams(streams, p);
    let ssif = has_ssif_row(streams, p);
    let pids = sorted_keys(all.dom());
    let rows = sorted_rows(text, clip_streams, scanned, p, angle_count);
    lemma_keys_from_members(all.dom(), 0);
    lemma_rows(text, all, pids, ssif, p, angle_count, pids.len() as int);
    assert(all.dom().contains(pid));
    assert(pids.contains(pid));
    let k = choose|k: int| 0 <= k < pids.len() && pids[k] == pid;
    assert(row_there(text, rows, all, ssif, p, pids[k], angle));
    assert forall|i: int| 0 <= i < rows.len() implies row_belongs(
        text,
        #[trigger] rows[i],
        all,
        ssif,
        p,
        angle_count,
    ) by {
        let n = pids.len() as int;
        assert(row_known(text, rows[i], all, ssif, p, pids, n, angle_count));
        let (j, a) = choose|j: int, a: int|
            0 <= j < n && 0 <= a <= angles_for(all, pids[j], angle_count) && #[trigger] is_row_of(
                text,
                rows[i],
                all,
                ssif,
                p,
                pids[j],
                a,
            );
        assert(all.dom().contains(pids[j]));
    }
}

} // verus!
