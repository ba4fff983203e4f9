//! Playlist files.

use bdinfo_rs_core::bdrom::clpi::Ratio;
use bdinfo_rs_core::bdrom::mpls::TsPlaylistFile;
use bdinfo_rs_core::primitives::Pid;
use bdinfo_rs_core::stream::{
    TsAspectRatio, TsAudioStream, TsChannelLayout, TsFrameRate, TsStream, TsStreamType,
    TsVideoFormat, TsVideoStream,
};

/// Ticks of the 90 kHz clock in seconds.
fn seconds(ticks: i64) -> f64 {
    ticks as f64 / 90_000.0
}

/// Each of several times in seconds.
fn all_seconds(ticks: &[i64]) -> Vec<f64> {
    ticks.iter().map(|&t| seconds(t)).collect()
}

/// The value of a ratio.
fn quotient(ratio: Ratio) -> f64 {
    ratio.num as f64 / ratio.den as f64
}

/// One Stream-Number-table entry: a 9-byte header block (PID placed per
/// `header_type`) + the stream length (5) + the coding type + 4 coding bytes.
fn pl_stream(header_type: u8, pid: u16, stream_type: u8, coding: [u8; 4]) -> Vec<u8> {
    let [ph, pl] = pid.to_be_bytes();
    let mut header = vec![header_type];
    match header_type {
        1 => header.extend_from_slice(&[ph, pl]),
        2 => header.extend_from_slice(&[0, 0, ph, pl]),
        // Type 4 (DV enhancement layer) shares type 3's subpath_id + PID shape.
        3 | 4 => header.extend_from_slice(&[0, ph, pl]),
        _ => {}
    }
    header.resize(9, 0);
    let mut entry = vec![9]; // header length
    entry.extend_from_slice(&header);
    entry.push(5); // stream length
    entry.push(stream_type);
    entry.extend_from_slice(&coding);
    entry
}

/// One secondary-stream comb-info block: the ref count, a reserved byte,
/// the 1-byte refs, and a pad byte when the count is odd.
fn comb_info(refs: &[u8]) -> Vec<u8> {
    let mut block = vec![u8::try_from(refs.len()).unwrap(), 0];
    block.extend_from_slice(refs);
    if refs.len() % 2 == 1 {
        block.push(0);
    }
    block
}

/// One `PlayItem`. `angles` is `None` for a single-angle item or `Some(names)`
/// for a multi-angle one (`names.len()` extra angles). `counts` are the seven
/// SN-table stream counts; `stream_bytes` is the concatenated entries.
fn build_item(
    name: &str,
    in_time: u32,
    out_time: u32,
    angles: Option<&[&str]>,
    counts: [u8; 7],
    stream_bytes: &[u8],
) -> Vec<u8> {
    build_item_codec(name, *b"M2TS", in_time, out_time, angles, counts, stream_bytes)
}

/// [`build_item`] with the 4-byte codec id chosen by the caller — `*b"M2TS"`
/// for an ordinary clip, `*b"FMTS"` for one whose stream file is `*.FMTS`.
/// The codec id is written for both the item and each angle entry.
fn build_item_codec(
    name: &str,
    codec: [u8; 4],
    in_time: u32,
    out_time: u32,
    angles: Option<&[&str]>,
    counts: [u8; 7],
    stream_bytes: &[u8],
) -> Vec<u8> {
    let mut body = Vec::new();
    let mut name_bytes = name.as_bytes().to_vec();
    name_bytes.resize(5, 0);
    body.extend_from_slice(&name_bytes); // +2..7 item name
    body.extend_from_slice(&codec); // +7..11 item type
    body.push(0); // +11
    body.push(if angles.is_some() { 0x10 } else { 0 }); // +12 multiangle flag
    body.push(0); // +13
    body.extend_from_slice(&in_time.to_be_bytes()); // +14..18
    body.extend_from_slice(&out_time.to_be_bytes()); // +18..22
    body.extend_from_slice(&[0_u8; 12]); // +22..34
    if let Some(angle_names) = angles {
        body.push(u8::try_from(angle_names.len().wrapping_add(1)).unwrap()); // angles byte
        body.push(0); // reserved (pos += 2)
        for angle_name in angle_names {
            let mut ab = angle_name.as_bytes().to_vec();
            ab.resize(5, 0);
            body.extend_from_slice(&ab); // angle name (5)
            body.extend_from_slice(&codec); // angle type (4)
            body.push(0); // reserved (1)
        }
    }
    body.extend_from_slice(&[0_u8; 2]); // stream-info length (unused)
    body.extend_from_slice(&[0_u8; 2]); // reserved
    body.extend_from_slice(&counts); // 7 count bytes
    body.extend_from_slice(&[0_u8; 5]); // reserved
    body.extend_from_slice(stream_bytes);
    let mut item = u16::try_from(body.len()).unwrap().to_be_bytes().to_vec();
    item.extend_from_slice(&body);
    item
}

/// A 14-byte `PlayListMark` entry: `chapter_type` at +1, `file_index` at +2,
/// `chapter_time` at +4.
fn chapter_entry(chapter_type: u8, file_index: u16, chapter_time: u32) -> Vec<u8> {
    let mut entry = vec![0, chapter_type];
    entry.extend_from_slice(&file_index.to_be_bytes());
    entry.extend_from_slice(&chapter_time.to_be_bytes());
    entry.resize(14, 0);
    entry
}

/// Wraps items + chapter entries in a valid MPLS envelope (`PlayList` at
/// `0x3C`, then `PlayListMark`).
fn build_mpls(misc_flags: u8, items: &[Vec<u8>], chapters: &[Vec<u8>]) -> Vec<u8> {
    let playlist_offset: usize = 0x3C;
    let mut playlist = Vec::new();
    playlist.extend_from_slice(&[0_u8; 4]); // PlayList length
    playlist.extend_from_slice(&[0_u8; 2]); // reserved
    playlist.extend_from_slice(&u16::try_from(items.len()).unwrap().to_be_bytes());
    playlist.extend_from_slice(&[0_u8; 2]); // sub-item count
    for item in items {
        playlist.extend_from_slice(item);
    }
    let chapters_offset = playlist_offset.wrapping_add(playlist.len());
    let mut mark = Vec::new();
    mark.extend_from_slice(&[0_u8; 4]); // PlayListMark length
    mark.extend_from_slice(&u16::try_from(chapters.len()).unwrap().to_be_bytes());
    for chapter in chapters {
        mark.extend_from_slice(chapter);
    }
    let mut buf = Vec::new();
    buf.extend_from_slice(b"MPLS0300");
    buf.extend_from_slice(&u32::try_from(playlist_offset).unwrap().to_be_bytes());
    buf.extend_from_slice(&u32::try_from(chapters_offset).unwrap().to_be_bytes());
    buf.extend_from_slice(&[0_u8; 4]); // extensions offset (unused)
    buf.resize(0x38, 0);
    buf.push(misc_flags); // misc flags at 0x38
    buf.resize(playlist_offset, 0);
    buf.extend_from_slice(&playlist);
    buf.extend_from_slice(&mark);
    buf
}

/// The comprehensive two-item playlist exercised by several tests.
fn comprehensive_mpls() -> Vec<u8> {
    // Item 0: video + audio + (PG, subtitle) + IG + secondary audio + MVC
    // secondary video — covering header types 1/2/3/4 and every stream kind.
    let mut streams0 = Vec::new();
    streams0.extend(pl_stream(1, 0x1011, 0x1B, [0x62, 0x30, 0, 0])); // AVC 1080p/24 16:9
    streams0.extend(pl_stream(1, 0x1100, 0x86, [0x61, b'd', b'e', b'u'])); // DTS-HD MA deu
    streams0.extend(pl_stream(3, 0x1200, 0x90, [b'e', b'n', b'g', 0])); // PG eng (header 3)
    streams0.extend(pl_stream(1, 0x1A00, 0x92, [0, b'j', b'p', b'n'])); // subtitle jpn
    streams0.extend(pl_stream(2, 0x1300, 0x91, [b'd', b'e', b'u', 0])); // IG deu (header 2)
    streams0.extend(pl_stream(4, 0x1101, 0x81, [0x31, b'f', b'r', b'a'])); // AC3 fra (header 4)
    streams0.extend(comb_info(&[])); // secondary-audio comb block (empty)
    streams0.extend(pl_stream(1, 0x1B01, 0x20, [0, 0, 0, 0])); // MVC -> no stream
    streams0.extend(comb_info(&[])); // secondary-video: secondary-audio refs
    streams0.extend(comb_info(&[])); // secondary-video: PiP-PG refs
    let item0 =
        build_item("00000", 2_700_000, 4_500_000, None, [1, 1, 2, 1, 1, 1, 0], &streams0);

    // Item 1: a second clip reusing PID 0x1011 with DIFFERENT coding, so the
    // relative_length > 0.01 overwrite is observable.
    let streams1 = pl_stream(1, 0x1011, 0x1B, [0x24, 0x20, 0, 0]); // 576i/29.97 4:3
    let item1 =
        build_item("00017", 2_700_000, 3_600_000, None, [1, 0, 0, 0, 0, 0, 0], &streams1);

    let chapters = [
        chapter_entry(1, 0, 2_700_000), // clip 0 @ 60s -> rel 0.0 (added)
        chapter_entry(1, 1, 2_700_000), // clip 1 @ 60s -> rel 40.0 (added)
        chapter_entry(2, 0, 0),         // non-type-1 -> ignored
        chapter_entry(1, 1, 3_555_000), /* clip 1 @ 79s -> rel 59.0; 60-59==1.0 not > 1.0
                                         * (skipped) */
        chapter_entry(1, 99, 2_700_000), // out-of-range clip index -> skipped
    ];
    build_mpls(0x10, &[item0, item1], &chapters)
}

#[test]
fn scan_parses_a_full_playlist() {
    let buf = comprehensive_mpls();
    let file = TsPlaylistFile::scan("00000.mpls", &buf).unwrap();

    assert_eq!(file.file_type, "MPLS0300");
    assert_eq!(file.name, "00000.MPLS");
    assert!(file.mvc_base_view_r); // misc flags 0x10
    assert_eq!(file.angle_count, 0);

    // Two main clips (no angles).
    assert_eq!(file.stream_clips.len(), 2);
    let clip0 = file.stream_clips.first().unwrap();
    assert_eq!(clip0.name, "00000.M2TS");
    assert_eq!(seconds(clip0.time_in).to_bits(), 60.0_f64.to_bits());
    assert_eq!(seconds(clip0.time_out).to_bits(), 100.0_f64.to_bits());
    assert_eq!(seconds(clip0.length).to_bits(), 40.0_f64.to_bits());
    assert_eq!(seconds(clip0.relative_time_in).to_bits(), 0.0_f64.to_bits());
    assert_eq!(seconds(clip0.relative_time_out).to_bits(), 40.0_f64.to_bits()); // rel_in + length
    assert!(quotient(clip0.relative_length).is_infinite()); // length / 0 for the first clip
    assert_eq!(all_seconds(&clip0.chapters), vec![60.0]); // one chapter landed in this clip
    let clip1 = file.stream_clips.get(1).unwrap();
    assert_eq!(clip1.name, "00017.M2TS");
    assert_eq!(seconds(clip1.relative_time_in).to_bits(), 40.0_f64.to_bits());
    assert_eq!(seconds(clip1.relative_time_out).to_bits(), 60.0_f64.to_bits());
    assert_eq!(quotient(clip1.relative_length).to_bits(), 0.5_f64.to_bits()); // 20 / 40

    // Playlist streams keyed by PID (MVC produced nothing).
    let pids: Vec<u16> = file.playlist_streams.keys().copied().collect();
    assert_eq!(pids, vec![0x1011, 0x1100, 0x1101, 0x1200, 0x1300, 0x1A00]);
    let kind = |pid: u16| file.playlist_streams.get(&pid).map(TsStream::stream_type);
    assert_eq!(kind(0x1011), Some(TsStreamType::AvcVideo));
    assert_eq!(kind(0x1100), Some(TsStreamType::DtsHdMasterAudio));
    assert_eq!(kind(0x1101), Some(TsStreamType::Ac3Audio));
    assert_eq!(kind(0x1200), Some(TsStreamType::PresentationGraphics));
    assert_eq!(kind(0x1300), Some(TsStreamType::InteractiveGraphics));
    assert_eq!(kind(0x1A00), Some(TsStreamType::Subtitle));

    // The audio stream's details came through.
    let mut audio = TsAudioStream {
        channel_layout: TsChannelLayout::ChannellayoutMulti,
        sample_rate: 48_000,
        ..TsAudioStream::default()
    };
    audio.base.set_language_code("deu");
    audio.base.pid = Pid::new(0x1100);
    audio.base.stream_type = TsStreamType::DtsHdMasterAudio;
    assert_eq!(file.playlist_streams.get(&0x1100), Some(&TsStream::Audio(audio)));

    // PID 0x1011 was overwritten by item 1's clip (relative_length 0.5 > 0.01):
    // it now carries item 1's coding (576i / 29.97), not item 0's.
    let mut video = TsVideoStream::default();
    video.set_video_format(TsVideoFormat::Videoformat576i);
    video.set_frame_rate(TsFrameRate::Framerate29_97);
    video.base.pid = Pid::new(0x1011);
    video.base.stream_type = TsStreamType::AvcVideo;
    assert_eq!(file.playlist_streams.get(&0x1011), Some(&TsStream::Video(video)));

    // Two chapters cleared the 1.0s gate; the type-2, gate-failing, and
    // out-of-range entries did not.
    assert_eq!(all_seconds(&file.chapters), vec![0.0, 40.0]);
}

/// A two-item playlist where item 0 has 2 extra angles and item 1 has 1.
fn multiangle_mpls() -> Vec<u8> {
    let v = pl_stream(1, 0x1011, 0x1B, [0x62, 0x30, 0, 0]);
    let item0 = build_item(
        "00000",
        2_700_000,
        4_500_000,
        Some(&["00010", "00021"]),
        [1, 0, 0, 0, 0, 0, 0],
        &v,
    );
    let item1 =
        build_item("00017", 2_700_000, 3_600_000, Some(&["00030"]), [1, 0, 0, 0, 0, 0, 0], &v);
    build_mpls(0, &[item0, item1], &[])
}

#[test]
fn scan_handles_multiangle_items() {
    // Item 0: 2 extra angles; item 1: 1 extra angle (so the second does NOT
    // raise angle_count — exercising both sides of that comparison).
    let file = TsPlaylistFile::scan("p.mpls", &multiangle_mpls()).unwrap();

    assert_eq!(file.angle_count, 2);
    // 2 main clips + (2 + 1) angle clips: [main0, a0, a0, main1, a1].
    assert_eq!(file.stream_clips.len(), 5);
    assert_eq!(file.stream_clips.get(1).unwrap().angle_index, 1);
    // Each angle clip is named after its own `*.m2ts` (so the disc scan folds the
    // angle's size into file_size); item 0's first extra angle is `00010`.
    assert_eq!(file.stream_clips.get(1).unwrap().name, "00010.M2TS");
    // Item 1's angle clip copies the main clip's timing; every field is
    // non-zero, so a deleted field (defaulting to 0) is caught.
    let angle = file.stream_clips.get(4).unwrap();
    assert_eq!(angle.angle_index, 1);
    assert_eq!(angle.name, "00030.M2TS");
    assert_eq!(seconds(angle.time_in).to_bits(), 60.0_f64.to_bits());
    assert_eq!(seconds(angle.time_out).to_bits(), 80.0_f64.to_bits());
    assert_eq!(seconds(angle.length).to_bits(), 20.0_f64.to_bits());
    assert_eq!(seconds(angle.relative_time_in).to_bits(), 40.0_f64.to_bits());
    assert_eq!(seconds(angle.relative_time_out).to_bits(), 60.0_f64.to_bits());
    assert!(!file.mvc_base_view_r); // misc flags 0
}

#[test]
fn scan_resolves_fmts_clips_to_fmts_stream_files() {
    // A play item (and its angle) whose codec id is `FMTS` names its clip
    // `*.FMTS`, not `*.M2TS`, so the disc scan resolves the right stream
    // file; an ordinary item keeps `*.M2TS`. One multiangle FMTS item plus
    // one ordinary item covers both the main- and angle-clip naming sites
    // and both arms of `clip_extension`.
    let fmts = build_item_codec(
        "00000",
        *b"FMTS",
        0,
        4_500_000,
        Some(&["00009"]),
        [0, 0, 0, 0, 0, 0, 0],
        &[],
    );
    let m2ts = build_item("00100", 0, 4_500_000, None, [0, 0, 0, 0, 0, 0, 0], &[]);
    let file = TsPlaylistFile::scan("00000.mpls", &build_mpls(0, &[fmts, m2ts], &[])).unwrap();
    assert_eq!(file.stream_clips.first().unwrap().name, "00000.FMTS");
    assert_eq!(file.stream_clips.get(1).unwrap().name, "00009.FMTS"); // the angle clip
    assert_eq!(file.stream_clips.get(2).unwrap().name, "00100.M2TS"); // ordinary item
}

#[test]
fn duplicate_pid_at_the_relative_length_threshold_is_not_overwritten() {
    // Item 0 is a long clip (PID 0x1011, 1080p); item 1 reuses PID 0x1011 with
    // different coding but its relative_length is exactly 0.01 (1s / 100s). The
    // rule is `> 0.01`, so it does NOT overwrite — item 0's stream is kept.
    // (This pins the `>` boundary: a `>=` would wrongly overwrite.)
    let v0 = pl_stream(1, 0x1011, 0x1B, [0x62, 0x30, 0, 0]); // 1080p / 24 / 16:9
    let item0 = build_item("00000", 0, 4_500_000, None, [1, 0, 0, 0, 0, 0, 0], &v0); // 100s
    let v1 = pl_stream(1, 0x1011, 0x1B, [0x24, 0x20, 0, 0]); // 576i / 29.97 / 4:3
    let item1 = build_item("00017", 0, 45_000, None, [1, 0, 0, 0, 0, 0, 0], &v1); // 1s
    let buf = build_mpls(0, &[item0, item1], &[]);
    let file = TsPlaylistFile::scan("p.mpls", &buf).unwrap();

    // relative_length of item 1 is 1.0 / 100.0 == 0.01 (not > 0.01) → kept.
    let mut video = TsVideoStream::default();
    video.set_video_format(TsVideoFormat::Videoformat1080p);
    video.set_frame_rate(TsFrameRate::Framerate24);
    video.base.pid = Pid::new(0x1011);
    video.base.stream_type = TsStreamType::AvcVideo;
    assert_eq!(file.playlist_streams.get(&0x1011), Some(&TsStream::Video(video)));
}

#[test]
fn header_types_select_the_pid_offset() {
    // Five video streams, header types 1/2/3/4/other — the last forces PID 0.
    let mut streams = Vec::new();
    for (header_type, pid) in
        [(1_u8, 0x1001_u16), (2, 0x1002), (3, 0x1003), (4, 0x1004), (7, 0x1005)]
    {
        streams.extend(pl_stream(header_type, pid, 0x1B, [0x62, 0x30, 0, 0]));
    }
    let item = build_item("00000", 2_700_000, 4_500_000, None, [5, 0, 0, 0, 0, 0, 0], &streams);
    let buf = build_mpls(0, &[item], &[]);
    let file = TsPlaylistFile::scan("p.mpls", &buf).unwrap();
    let pids: Vec<u16> = file.playlist_streams.keys().copied().collect();
    // header type 7 -> default -> PID 0; the others carry their declared PID.
    assert_eq!(pids, vec![0x0000, 0x1001, 0x1002, 0x1003, 0x1004]);
}

/// A one-item playlist with 1 PG + 1 PiP-PG + 1 IG entry (the PiP-PG
/// entry sits in-line in the PG section, before the IG entries).
fn pip_pg_mpls() -> Vec<u8> {
    let mut streams = Vec::new();
    streams.extend(pl_stream(1, 0x1200, 0x90, [b'e', b'n', b'g', 0])); // PG
    streams.extend(pl_stream(1, 0x1210, 0x90, [b'f', b'r', b'a', 0])); // PiP-PG
    streams.extend(pl_stream(1, 0x1300, 0x91, [b'd', b'e', b'u', 0])); // IG
    let item = build_item("00000", 2_700_000, 4_500_000, None, [0, 0, 1, 1, 0, 0, 1], &streams);
    build_mpls(0, &[item], &[])
}

#[test]
fn pip_pg_entries_are_consumed_inside_the_pg_section() {
    // The PiP-PG entry must be consumed (else the IG loop parses the PiP
    // entry instead) but is not modelled, so the PiP PID never appears in
    // the playlist streams.
    let file = TsPlaylistFile::scan("p.mpls", &pip_pg_mpls()).unwrap();
    let pids: Vec<u16> = file.playlist_streams.keys().copied().collect();
    assert_eq!(pids, vec![0x1200, 0x1300]);
    let kind = |pid: u16| file.playlist_streams.get(&pid).map(TsStream::stream_type);
    assert_eq!(kind(0x1200), Some(TsStreamType::PresentationGraphics));
    assert_eq!(kind(0x1300), Some(TsStreamType::InteractiveGraphics));
}

#[test]
fn secondary_entries_skip_their_variable_comb_info_lists() {
    // Two secondary-audio entries (the first with one ref → a padded
    // 4-byte comb block) and two secondary-video entries (the first with
    // one even and one odd ref list → 4 + 4 bytes). A fixed stride would
    // misalign every entry after the first of each section.
    let mut streams = Vec::new();
    streams.extend(pl_stream(1, 0x1A10, 0xA1, [0x31, b'e', b'n', b'g']));
    streams.extend(comb_info(&[1])); // one primary-audio ref, odd → padded
    streams.extend(pl_stream(1, 0x1A11, 0xA2, [0x31, b'f', b'r', b'a']));
    streams.extend(comb_info(&[])); // empty → 2 bytes
    streams.extend(pl_stream(1, 0x1B10, 0x1B, [0x62, 0x30, 0, 0]));
    streams.extend(comb_info(&[1, 2])); // even ref list → no pad
    streams.extend(comb_info(&[3])); // odd ref list → padded
    streams.extend(pl_stream(1, 0x1B11, 0x1B, [0x62, 0x30, 0, 0]));
    streams.extend(comb_info(&[]));
    streams.extend(comb_info(&[]));
    let item = build_item("00000", 2_700_000, 4_500_000, None, [0, 0, 0, 0, 2, 2, 0], &streams);
    let buf = build_mpls(0, &[item], &[]);
    let file = TsPlaylistFile::scan("p.mpls", &buf).unwrap();
    let pids: Vec<u16> = file.playlist_streams.keys().copied().collect();
    assert_eq!(pids, vec![0x1A10, 0x1A11, 0x1B10, 0x1B11]);
    let kind = |pid: u16| file.playlist_streams.get(&pid).map(TsStream::stream_type);
    assert_eq!(kind(0x1A10), Some(TsStreamType::Ac3PlusSecondaryAudio));
    assert_eq!(kind(0x1A11), Some(TsStreamType::DtsHdSecondaryAudio));
    assert_eq!(kind(0x1B10), Some(TsStreamType::AvcVideo));
    assert_eq!(kind(0x1B11), Some(TsStreamType::AvcVideo));
}

#[test]
fn unknown_and_mvc_stream_types_yield_no_stream() {
    // An unknown coding type (0x99) and MVC (0x20) both produce no stream, so
    // the item's only stream count adds nothing to the playlist streams.
    let mut streams = pl_stream(1, 0x1500, 0x99, [0, 0, 0, 0]); // unknown
    streams.extend(pl_stream(1, 0x1600, 0x20, [0, 0, 0, 0])); // MVC
    let item = build_item("00000", 2_700_000, 4_500_000, None, [2, 0, 0, 0, 0, 0, 0], &streams);
    let buf = build_mpls(0, &[item], &[]);
    let file = TsPlaylistFile::scan("p.mpls", &buf).unwrap();
    assert!(file.playlist_streams.is_empty());
    assert_eq!(file.stream_clips.len(), 1);
}

#[test]
fn mpls_video_attributes_carry_no_aspect_ratio() {
    // MPLS video attributes carry only format + rate; on an HEVC entry the
    // next byte is dynamic_range_type/color_space. Reading its high nibble
    // as an aspect field would turn dynamic_range_type == 2 into
    // Aspect4_3 — the aspect must stay at its default instead.
    let streams = pl_stream(1, 0x1011, 0x24, [0x62, 0x20, 0, 0]); // HEVC, dr_type 2
    let item = build_item("00000", 2_700_000, 4_500_000, None, [1, 0, 0, 0, 0, 0, 0], &streams);
    let buf = build_mpls(0, &[item], &[]);
    let file = TsPlaylistFile::scan("p.mpls", &buf).unwrap();
    let mut video = TsVideoStream::default();
    video.set_video_format(TsVideoFormat::Videoformat1080p);
    video.set_frame_rate(TsFrameRate::Framerate24);
    video.base.pid = Pid::new(0x1011);
    video.base.stream_type = TsStreamType::HevcVideo;
    assert_eq!(video.aspect_ratio, TsAspectRatio::Unknown);
    assert_eq!(file.playlist_streams.get(&0x1011), Some(&TsStream::Video(video)));
}

#[test]
fn read_time_masks_the_sign_bit() {
    // Times with bit 31 set must mask down to the low 31 bits.
    let in_time = 0x8000_0000_u32 | 0x0029_32E0; // 2_700_000 -> 60.0s after masking
    let out_time = 0x8000_0000_u32 | 0x0044_AA20; // 4_500_000 -> 100.0s
    let v = pl_stream(1, 0x1011, 0x1B, [0x62, 0x30, 0, 0]);
    let item = build_item("00000", in_time, out_time, None, [1, 0, 0, 0, 0, 0, 0], &v);
    let buf = build_mpls(0, &[item], &[]);
    let file = TsPlaylistFile::scan("p.mpls", &buf).unwrap();
    let clip = file.stream_clips.first().unwrap();
    assert_eq!(seconds(clip.time_in).to_bits(), 60.0_f64.to_bits());
    assert_eq!(seconds(clip.time_out).to_bits(), 100.0_f64.to_bits());
}

#[test]
fn scan_accepts_all_four_magics_and_rejects_others() {
    for magic in ["MPLS0100", "MPLS0200", "MPLS0240", "MPLS0300"] {
        let mut buf = comprehensive_mpls();
        buf.splice(0..8, magic.bytes());
        assert!(TsPlaylistFile::scan("p.mpls", &buf).is_ok(), "magic {magic}");
    }
    let mut bad = comprehensive_mpls();
    bad.splice(0..8, *b"MPLSXXXX");
    assert_eq!(
        TsPlaylistFile::scan("p.mpls", &bad).unwrap_err().message(),
        "unknown file type: MPLSXXXX"
    );
}

#[test]
fn scan_never_panics_on_truncation() {
    // Every prefix of a valid playlist parses to Ok or Err — never panics.
    // All three buffers are swept so the multiangle and PiP-PG reads' EOF
    // paths are exercised.
    for full in [comprehensive_mpls(), multiangle_mpls(), pip_pg_mpls()] {
        for len in 0..=full.len() {
            let chunk = full.get(..len).unwrap();
            drop(TsPlaylistFile::scan("t.mpls", chunk));
        }
        assert!(TsPlaylistFile::scan("t.mpls", &full).is_ok());
        // A clearly-incomplete prefix is rejected, not accepted.
        let half = full.get(..full.len() / 2).unwrap();
        assert_eq!(
            TsPlaylistFile::scan("t.mpls", half).unwrap_err().message(),
            "unexpected end of input"
        );
    }
}

#[test]
fn scan_rejects_short_headers() {
    let eof = "unexpected end of input";
    assert_eq!(TsPlaylistFile::scan("e", &[]).unwrap_err().message(), eof);
    assert_eq!(TsPlaylistFile::scan("e", b"MPLS0300").unwrap_err().message(), eof);
}

#[test]
fn playlist_scan_takes_arbitrary_input() {
    let mut state: u32 = 7;
    for round in 0..300_usize {
        let mut data = comprehensive_mpls();
        // A few bytes of a valid playlist replaced at scattered places.
        for _ in 0..8 {
            state = state.wrapping_mul(1_664_525).wrapping_add(1_013_904_223);
            let at = 8 + (state >> 8) as usize % (data.len() - 8);
            data[at] = (state >> 24) as u8;
        }
        data.truncate(data.len() - round % 50);
        drop(TsPlaylistFile::scan("fuzz.mpls", &data));
    }
    assert!(TsPlaylistFile::scan("fuzz.mpls", &[0x5A; 400]).is_err());
}

#[test]
fn playlist_scan_round_trips_built_playlists() {
    for step in 0..64_u32 {
        let pid = (step * 1021) as u16;
        let in_time = step * 33_000_000;
        let out_time = in_time.saturating_add(2_700_000);
        let v = pl_stream(1, pid, 0x1B, [0x62, 0x30, 0, 0]);
        let item = build_item("00000", in_time, out_time, None, [1, 0, 0, 0, 0, 0, 0], &v);
        let buf = build_mpls(0, &[item], &[]);
        let file = TsPlaylistFile::scan("p.mpls", &buf).unwrap();
        let stream = file.playlist_streams.get(&pid).unwrap();
        assert_eq!(stream.pid(), Pid::new(pid));
        assert_eq!(stream.stream_type(), TsStreamType::AvcVideo);
    }
}

#[test]
fn a_playlist_plays_the_files_of_its_clips() {
    let file = TsPlaylistFile::scan("p.mpls", &multiangle_mpls()).unwrap();
    assert!(file.plays_file("00000.M2TS"));
    assert!(file.plays_file("00030.M2TS")); // an angle's file
    assert!(!file.plays_file("00001.M2TS"));
}
