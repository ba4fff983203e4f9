//! Summaries, reference clips, merging and the other parts of a disc scan that stand by
//! themselves.

use std::collections::BTreeMap;
use std::sync::Arc;

use bdinfo_rs_core::bdrom::clpi::{Ratio, TsStreamClip, TsStreamClipFile};
use bdinfo_rs_core::bdrom::chapters::{Rate, Share};
use bdinfo_rs_core::bdrom::disc::{rate_over, ClipSummary, PlaylistSummary, ScanProgress};
use bdinfo_rs_core::bdrom::m2ts::{TsStreamDiagnostics, TsStreamFile};
use bdinfo_rs_core::bdrom::merge::merge_stream;
use bdinfo_rs_core::bdrom::mpls::TsPlaylistFile;
use bdinfo_rs_core::bdrom::passes::{scan_total, Progress};
use bdinfo_rs_core::bdrom::present::{
    build_sorted_streams, full_description, stream_summary, StreamText,
};
use bdinfo_rs_core::bdrom::resolve::{
    clear_measurements, clip_has_50hz_video, clip_stem, remerge_graphics_detail,
    resolve_playlist_streams, select_reference, ClipMeta, MVC_PID,
};
use bdinfo_rs_core::bdrom::summarise::{
    build_chapter_summaries, build_clip_summaries, build_summary,
};
use bdinfo_rs_core::bdrom::title::{read_disc_title, read_disc_title_from};
use bdinfo_rs_core::names::NameTable;
use bdinfo_rs_core::primitives::Pid;
use bdinfo_rs_core::stream::{
    LanguageCode, TsAudioMode, TsAudioStream, TsFrameRate, TsGraphicsStream, TsStream, TsStreamType,
    TsTextStream, TsVideoFormat, TsVideoStream,
};

/// Seconds in ticks of the 90 kHz clock.
fn ticks(seconds: f64) -> i64 {
    (seconds * 90_000.0) as i64
}

/// Ticks in seconds.
fn seconds(ticks: impl Into<i128>) -> f64 {
    let wide: i128 = ticks.into();
    wide as f64 / 90_000.0
}

/// A rate in bits per second.
fn bits(rate: Rate) -> f64 {
    rate.bytes as f64 * 8.0 * 90_000.0 / rate.ticks as f64
}

/// An average frame in bytes.
fn average(share: Share) -> f64 {
    share.bytes as f64 / share.frames as f64
}

/// A table of the given entries.
fn table<V>(entries: Vec<(&str, V)>) -> NameTable<V> {
    let mut out = NameTable::new();
    for (name, value) in entries {
        out.insert(name.to_owned(), value);
    }
    out
}

/// Sets a stream's rates.
fn set_rates(stream: &mut TsStream, bit_rate: i64, active_bit_rate: i64) {
    let mut base = *stream.base();
    base.bit_rate = bit_rate;
    base.active_bit_rate = active_bit_rate;
    stream.set_base(base);
}

/// Words for the streams of these tests.
struct Render;

impl Render {
    fn names(s: &TsStream) -> (&'static str, &'static str) {
        match s.stream_type() {
            TsStreamType::AvcVideo => ("AVC", "MPEG-4 AVC Video"),
            TsStreamType::MvcVideo => ("MVC", "MPEG-4 MVC Video"),
            TsStreamType::HevcVideo => ("HEVC", "MPEG-H HEVC Video"),
            TsStreamType::LpcmAudio => ("LPCM", "LPCM Audio"),
            TsStreamType::Ac3Audio => ("AC3", "Dolby Digital Audio"),
            TsStreamType::PresentationGraphics => ("PGS", "Presentation Graphics"),
            TsStreamType::Subtitle => ("SUB", "Subtitle"),
            _ => ("?", "Other"),
        }
    }
}

impl StreamText for Render {
    fn codec_short_name(&self, s: &TsStream) -> String {
        Self::names(s).0.to_owned()
    }

    fn codec_name(&self, s: &TsStream) -> String {
        Self::names(s).1.to_owned()
    }

    fn codec_alt_name(&self, s: &TsStream) -> String {
        Self::names(s).0.to_owned()
    }

    fn language_name(&self, s: &TsStream) -> String {
        let code = match s.base().language_code {
            Some(code) => format!("{}{}{}", code.first, code.second, code.third),
            None => String::new(),
        };
        match code.as_str() {
            "jpn" => "Japanese",
            "eng" => "English",
            "deu" => "German",
            "fra" => "French",
            _ => "",
        }
        .to_owned()
    }

    fn description(&self, s: &TsStream) -> String {
        match s {
            TsStream::Video(v) if s.stream_type() != TsStreamType::MvcVideo => format!(
                "{}p / {}",
                v.height,
                v.encoding_profile.as_deref().unwrap_or("no profile")
            ),
            TsStream::Audio(a) => format!(
                "{} / {} Hz / {} kbps / {}-bit",
                self.channel_description(s),
                a.sample_rate,
                a.base.bit_rate / 1000,
                a.bit_depth
            ),
            TsStream::Graphics(g) if g.captions > 0 => {
                format!("{}x{} / {} Captions", g.width, g.height, g.captions)
            }
            _ => String::new(),
        }
    }

    fn full_description(&self, s: &TsStream) -> String {
        format!("{} / full", self.description(s))
    }

    fn channel_description(&self, s: &TsStream) -> String {
        match s {
            TsStream::Audio(a) => format!("{}.{}", a.channel_count, a.lfe),
            _ => String::new(),
        }
    }
}

/// One Stream-Number-table entry: a 9-byte header block (PID placed per
/// `header_type`) + the stream length (5) + the coding type + 4 coding bytes.
fn pl_stream(header_type: u8, pid: u16, stream_type: u8, coding: [u8; 4]) -> Vec<u8> {
    let [ph, pl] = pid.to_be_bytes();
    let mut header = vec![header_type];
    match header_type {
        1 => header.extend_from_slice(&[ph, pl]),
        2 => header.extend_from_slice(&[0, 0, ph, pl]),
        // Type 4 (DV enhancement layer) shares type 3's subpath_id + PID shape.
        3 | 4 => header.extend_from_slice(&[0, ph, pl]),
        _ => {}
    }
    header.resize(9, 0);
    let mut entry = vec![9]; // header length
    entry.extend_from_slice(&header);
    entry.push(5); // stream length
    entry.push(stream_type);
    entry.extend_from_slice(&coding);
    entry
}

/// [`build_item`] with the 4-byte codec id chosen by the caller — `*b"M2TS"`
/// for an ordinary clip, `*b"FMTS"` for one whose stream file is `*.FMTS`.
/// The codec id is written for both the item and each angle entry.
fn build_item_codec(
    name: &str,
    codec: [u8; 4],
    in_time: u32,
    out_time: u32,
    angles: Option<&[&str]>,
    counts: [u8; 7],
    stream_bytes: &[u8],
) -> Vec<u8> {
    let mut body = Vec::new();
    let mut name_bytes = name.as_bytes().to_vec();
    name_bytes.resize(5, 0);
    body.extend_from_slice(&name_bytes); // +2..7 item name
    body.extend_from_slice(&codec); // +7..11 item type
    body.push(0); // +11
    body.push(if angles.is_some() { 0x10 } else { 0 }); // +12 multiangle flag
    body.push(0); // +13
    body.extend_from_slice(&in_time.to_be_bytes()); // +14..18
    body.extend_from_slice(&out_time.to_be_bytes()); // +18..22
    body.extend_from_slice(&[0_u8; 12]); // +22..34
    if let Some(angle_names) = angles {
        body.push(u8::try_from(angle_names.len().wrapping_add(1)).unwrap()); // angles byte
        body.push(0); // reserved (pos += 2)
        for angle_name in angle_names {
            let mut ab = angle_name.as_bytes().to_vec();
            ab.resize(5, 0);
            body.extend_from_slice(&ab); // angle name (5)
            body.extend_from_slice(&codec); // angle type (4)
            body.push(0); // reserved (1)
        }
    }
    body.extend_from_slice(&[0_u8; 2]); // stream-info length (unused)
    body.extend_from_slice(&[0_u8; 2]); // reserved
    body.extend_from_slice(&counts); // 7 count bytes
    body.extend_from_slice(&[0_u8; 5]); // reserved
    body.extend_from_slice(stream_bytes);
    let mut item = u16::try_from(body.len()).unwrap().to_be_bytes().to_vec();
    item.extend_from_slice(&body);
    item
}

/// A 14-byte `PlayListMark` entry: `chapter_type` at +1, `file_index` at +2,
/// `chapter_time` at +4.
fn chapter_entry(chapter_type: u8, file_index: u16, chapter_time: u32) -> Vec<u8> {
    let mut entry = vec![0, chapter_type];
    entry.extend_from_slice(&file_index.to_be_bytes());
    entry.extend_from_slice(&chapter_time.to_be_bytes());
    entry.resize(14, 0);
    entry
}

/// Wraps items + chapter entries in a valid MPLS envelope (`PlayList` at
/// `0x3C`, then `PlayListMark`).
fn build_mpls(misc_flags: u8, items: &[Vec<u8>], chapters: &[Vec<u8>]) -> Vec<u8> {
    let playlist_offset: usize = 0x3C;
    let mut playlist = Vec::new();
    playlist.extend_from_slice(&[0_u8; 4]); // PlayList length
    playlist.extend_from_slice(&[0_u8; 2]); // reserved
    playlist.extend_from_slice(&u16::try_from(items.len()).unwrap().to_be_bytes());
    playlist.extend_from_slice(&[0_u8; 2]); // sub-item count
    for item in items {
        playlist.extend_from_slice(item);
    }
    let chapters_offset = playlist_offset.wrapping_add(playlist.len());
    let mut mark = Vec::new();
    mark.extend_from_slice(&[0_u8; 4]); // PlayListMark length
    mark.extend_from_slice(&u16::try_from(chapters.len()).unwrap().to_be_bytes());
    for chapter in chapters {
        mark.extend_from_slice(chapter);
    }
    let mut buf = Vec::new();
    buf.extend_from_slice(b"MPLS0300");
    buf.extend_from_slice(&u32::try_from(playlist_offset).unwrap().to_be_bytes());
    buf.extend_from_slice(&u32::try_from(chapters_offset).unwrap().to_be_bytes());
    buf.extend_from_slice(&[0_u8; 4]); // extensions offset (unused)
    buf.resize(0x38, 0);
    buf.push(misc_flags); // misc flags at 0x38
    buf.resize(playlist_offset, 0);
    buf.extend_from_slice(&playlist);
    buf.extend_from_slice(&mark);
    buf
}

/// A valid single-item `*.mpls` with no extra camera angles (the common case).
fn mpls(item_name: &str, in_t: u32, out_t: u32, chapters: &[(u8, u16, u32)]) -> Vec<u8> {
    mpls_angles(item_name, in_t, out_t, &[], chapters)
}

/// A valid single-item `*.mpls` with `angle_names` extra camera angles and an
/// empty Stream-Number table.
fn mpls_angles(
    item_name: &str,
    in_t: u32,
    out_t: u32,
    angle_names: &[&str],
    chapters: &[(u8, u16, u32)],
) -> Vec<u8> {
    mpls_items(&[item_name], in_t, out_t, angle_names, &[], chapters)
}

/// A valid `*.mpls`: `MPLS0300`, one identical `PlayItem` per name in
/// `item_names` with the given in/out times (45 kHz ticks), `angle_names`
/// extra camera angles, a Stream-Number table declaring `declared_audio`
/// as AC3 audio entries, and the given `(chapter_type, file_index, tick)`
/// marks. Repeating a name yields a looping playlist (the same clip
/// replayed from the same in-time).
fn mpls_items(
    item_names: &[&str],
    in_t: u32,
    out_t: u32,
    angle_names: &[&str],
    declared_audio: &[u16],
    chapters: &[(u8, u16, u32)],
) -> Vec<u8> {
    mpls_items_codec(*b"M2TS", item_names, in_t, out_t, angle_names, declared_audio, chapters)
}

/// A single-item-per-name `*.mpls` whose play items (and angles) carry the
/// given 4-byte `codec` id — `*b"M2TS"` for ordinary clips, `*b"FMTS"` for the
/// `*.FMTS` variant.
fn mpls_items_codec(
    codec: [u8; 4],
    item_names: &[&str],
    in_t: u32,
    out_t: u32,
    angle_names: &[&str],
    declared_audio: &[u16],
    chapters: &[(u8, u16, u32)],
) -> Vec<u8> {
    // Each declared PID becomes one AC3 5.1 / 48 kHz English entry, so the
    // counts array names audio alone.
    let mut stream_bytes = Vec::new();
    for &pid in declared_audio {
        stream_bytes.extend(pl_stream(1, pid, 0x81, [0x61, b'e', b'n', b'g']));
    }
    let counts = [0, u8::try_from(declared_audio.len()).unwrap(), 0, 0, 0, 0, 0];
    // An empty angle list is a single-angle item, not a multi-angle one with
    // no extra angles — the two differ in the item's multiangle flag.
    let angles = if angle_names.is_empty() { None } else { Some(angle_names) };
    let items: Vec<Vec<u8>> = item_names
        .iter()
        .map(|name| build_item_codec(name, codec, in_t, out_t, angles, counts, &stream_bytes))
        .collect();
    let marks: Vec<Vec<u8>> = chapters
        .iter()
        .map(|&(chapter_type, file_index, tick)| chapter_entry(chapter_type, file_index, tick))
        .collect();
    build_mpls(0, &items, &marks)
}

/// `bdmt_eng.xml` with the given title in the `discinfo` namespace.
fn title_xml(name: &str) -> Vec<u8> {
    format!(
        "<disclib xmlns:di=\"urn:BDA:bdmv;discinfo\">\
         <di:discinfo><di:title><di:name>{name}</di:name></di:title></di:discinfo></disclib>"
    )
    .into_bytes()
}

#[test]
fn read_disc_title_handles_every_case() {
    // Normal title, with a leading UTF-8 BOM (the parser strips it).
    let with_bom = format!("\u{feff}{}", String::from_utf8(title_xml("BROTHER")).unwrap());
    assert_eq!(read_disc_title(&with_bom).as_deref(), Some("BROTHER"));
    // Empty title is preserved as Some("") (only "blu-ray" is nulled).
    assert_eq!(
        read_disc_title(&String::from_utf8(title_xml("")).unwrap()).as_deref(),
        Some("")
    );
    // The "blu-ray" placeholder (any case) becomes None.
    assert_eq!(read_disc_title(&String::from_utf8(title_xml("Blu-ray")).unwrap()), None);
    // Malformed XML → None.
    assert_eq!(read_disc_title("<not xml"), None);
    // Missing discinfo / title / name nodes → None.
    assert_eq!(read_disc_title("<disclib></disclib>"), None);
    assert_eq!(
        read_disc_title(
            "<disclib xmlns:di=\"urn:BDA:bdmv;discinfo\"><di:discinfo></di:discinfo></disclib>"
        ),
        None
    );
    assert_eq!(
        read_disc_title(
            "<disclib xmlns:di=\"urn:BDA:bdmv;discinfo\">\
             <di:discinfo><di:title></di:title></di:discinfo></disclib>"
        ),
        None
    );
}

/// A clip-info stream map of `n` dummy streams — controls `clip_streams.len()`,
/// the only thing [`select_reference`] reads off it.
fn dummy_streams(n: usize) -> BTreeMap<u16, TsStream> {
    (0..n)
        .map(|i| (u16::try_from(i).unwrap(), TsStream::Audio(TsAudioStream::default())))
        .collect()
}

/// A playlist with no clips and empty stream maps — the unresolved stand-in
/// for the helpers that read `streams`/`angle_streams`.
fn bare_playlist() -> TsPlaylistFile {
    TsPlaylistFile {
        file_type: "MPLS0300".to_owned(),
        name: "00000.MPLS".to_owned(),
        mvc_base_view_r: false,
        chapters: Vec::new(),
        playlist_streams: BTreeMap::new(),
        streams: BTreeMap::new(),
        angle_streams: Vec::new(),
        stream_clips: Vec::new(),
        angle_count: 0,
    }
}

/// Builds a [`ClipMeta`] borrowing `streams`, varying the reference-selection
/// fields the selection loop reads.
fn meta(
    streams: &BTreeMap<u16, TsStream>,
    length: f64,
    relative: f64,
    has_stream_file: bool,
) -> ClipMeta<'_> {
    ClipMeta {
        clip_streams: streams,
        scanned: None,
        has_50hz_video: false,
        relative_length: Ratio { num: (relative * 100.0).round() as i64, den: 100 },
        length: ticks(length),
        stream_file_present: has_stream_file,
    }
}

/// The reference clip of a list that has one.
fn picked<'a, 'b>(clips: &'b Vec<ClipMeta<'a>>) -> &'b ClipMeta<'a> {
    &clips[select_reference(clips).unwrap()]
}

#[test]
fn select_reference_picks_per_the_selection_rules() {
    let s2 = dummy_streams(2);
    let s5 = dummy_streams(5);

    // Empty → None; single clip → itself.
    assert!(select_reference(&Vec::new()).is_none());
    let one = vec![meta(&s2, 10.0, 1.0, true)];
    assert_eq!(picked(&one).clip_streams.len(), 2);

    // Step A: the first clip lacks a stream file, the second has one (equal
    // counts/length, so only step A can promote it).
    let step_a = vec![meta(&s2, 10.0, 1.0, false), meta(&s2, 10.0, 1.0, true)];
    assert!(picked(&step_a).stream_file_present);

    // Step B (if): more clip-info streams and relative_length > 0.01 wins.
    let step_b_if = vec![meta(&s2, 10.0, 1.0, true), meta(&s5, 10.0, 1.0, true)];
    assert_eq!(picked(&step_b_if).clip_streams.len(), 5);
    // …but relative_length == 0.01 (not > 0.01) does NOT win on stream count.
    let at_threshold = vec![meta(&s2, 10.0, 1.0, true), meta(&s5, 10.0, 0.01, true)];
    assert_eq!(picked(&at_threshold).clip_streams.len(), 2);

    // Step B (else): equal stream counts but a longer clip with a stream file.
    let step_b_else = vec![meta(&s2, 10.0, 1.0, true), meta(&s2, 20.0, 1.0, true)];
    assert_eq!(seconds(picked(&step_b_else).length).to_bits(), 20.0_f64.to_bits());
    // …a longer clip WITHOUT a stream file does not win.
    let longer_no_file = vec![meta(&s2, 10.0, 1.0, true), meta(&s2, 20.0, 1.0, false)];
    assert_eq!(seconds(picked(&longer_no_file).length).to_bits(), 10.0_f64.to_bits());
}

#[test]
fn clip_has_50hz_video_detects_25_and_50fps() {
    // A 25 fps video (alongside audio) → 50 Hz.
    let mut at25 = BTreeMap::new();
    let mut v = TsVideoStream::default();
    v.set_frame_rate(TsFrameRate::Framerate25);
    at25.insert(0x1011, TsStream::Video(v));
    at25.insert(0x1100, TsStream::Audio(TsAudioStream::default()));
    assert!(clip_has_50hz_video(&at25));

    // 50 fps too.
    let mut at50 = BTreeMap::new();
    let mut v = TsVideoStream::default();
    v.set_frame_rate(TsFrameRate::Framerate50);
    at50.insert(0x1011, TsStream::Video(v));
    assert!(clip_has_50hz_video(&at50));

    // A 24 fps video (and audio) → not 50 Hz.
    let mut at24 = BTreeMap::new();
    let mut v = TsVideoStream::default();
    v.set_frame_rate(TsFrameRate::Framerate24);
    at24.insert(0x1011, TsStream::Video(v));
    at24.insert(0x1100, TsStream::Audio(TsAudioStream::default()));
    assert!(!clip_has_50hz_video(&at24));
}

/// The video stream inside `s`, or `None` for any other variant.
fn as_video(s: &TsStream) -> Option<&TsVideoStream> {
    if let TsStream::Video(video) = s { Some(video) } else { None }
}

#[test]
fn graphics_detail_remerges_after_the_full_pass() {
    // The presented PGS stream starts with the quick pass's empty detail;
    // the re-merge copies the full scan's caption tallies and dimensions.
    let mut playlist =
        TsPlaylistFile::scan("00000.mpls", &mpls("00000", 0, 4_500_000, &[])).unwrap();
    playlist.streams = BTreeMap::from([
        (0x1200_u16, TsStream::Graphics(TsGraphicsStream::default())),
        (0x1011, TsStream::Video(TsVideoStream::default())),
    ]);
    let scanned_pgs = TsGraphicsStream {
        captions: 837,
        width: 1920,
        height: 1080,
        ..TsGraphicsStream::default()
    };
    let mut scanned_video = TsVideoStream::default();
    scanned_video.set_video_format(TsVideoFormat::Videoformat2160p);
    // Detail a whole-map merge WOULD copy, so the graphics filter has teeth.
    scanned_video.encoding_profile = Some("High Profile 4.1".to_owned());
    let scanned = BTreeMap::from([
        (0x1200_u16, TsStream::Graphics(scanned_pgs)),
        // A non-graphics source is skipped (the quick-merged detail
        // stays), and a PID the playlist does not present adds nothing.
        (0x1011, TsStream::Video(scanned_video)),
        (0x1300, TsStream::Graphics(TsGraphicsStream::default())),
    ]);
    remerge_graphics_detail(&mut playlist, &scanned);

    // The summary view proves the merge: the PGS row carries the full
    // pass's dimensions and caption count; the video row kept its quick
    // detail (non-graphics sources are not re-merged).
    let graphics = stream_summary(&Render, playlist.streams.get(&0x1200).unwrap());
    assert_eq!(graphics.description, "1920x1080 / 837 Captions");
    let video = as_video(playlist.streams.get(&0x1011).unwrap()).unwrap();
    assert!(video.encoding_profile.is_none(), "non-graphics sources are not re-merged");
    assert!(!playlist.streams.contains_key(&0x1300));
}

/// The audio stream inside `s`, or `None` for any other variant.
fn as_audio(s: &TsStream) -> Option<&TsAudioStream> {
    if let TsStream::Audio(audio) = s { Some(audio) } else { None }
}

/// The graphics stream inside `s`, or `None` for any other variant.
fn as_graphics(s: &TsStream) -> Option<&TsGraphicsStream> {
    if let TsStream::Graphics(graphics) = s { Some(graphics) } else { None }
}

#[test]
fn merge_stream_copies_scanned_detail_per_kind() {
    // Video: the scanned encoding profile + extended data flow into the clip
    // stream; the clip stream's video format (not part of the merge) is kept.
    let mut dst = TsVideoStream::default();
    dst.base.stream_type = TsStreamType::AvcVideo;
    dst.set_video_format(TsVideoFormat::Videoformat1080p);
    let mut src = TsVideoStream::default();
    src.base.stream_type = TsStreamType::AvcVideo;
    src.encoding_profile = Some("High Profile 4.1".to_owned());
    src.base.bit_rate = 5;
    src.base.is_vbr = true;
    let mut video = TsStream::Video(dst);
    merge_stream(&mut video, &TsStream::Video(src));
    // The `None` arm of `as_audio` is exercised here (video is not audio).
    assert!(as_audio(&video).is_none());
    let merged = as_video(&video).unwrap();
    assert_eq!(merged.encoding_profile.as_deref(), Some("High Profile 4.1"));
    assert_eq!(merged.height, 1080); // clip-info format preserved
    assert_eq!(merged.base.bit_rate, 5); // max(0, 5)
    assert!(merged.base.is_vbr);

    // Audio: count/sample/depth take the max, dial-norm the min; mode/extension/
    // core flow in; the clip-info language survives.
    let mut dst = TsAudioStream::default();
    dst.base.stream_type = TsStreamType::DtsHdMasterAudio;
    dst.base.set_language_code("jpn");
    let mut src = TsAudioStream::default();
    src.base.stream_type = TsStreamType::DtsHdMasterAudio;
    src.channel_count = 6;
    src.lfe = 1;
    src.sample_rate = 48_000;
    src.bit_depth = 24;
    src.dial_norm = -27;
    src.audio_mode = TsAudioMode::Extended;
    src.has_extensions = true;
    src.ext_data = Some("x".to_owned());
    src.core_stream = Some(Box::new(TsAudioStream::default()));
    let mut audio = TsStream::Audio(dst);
    merge_stream(&mut audio, &TsStream::Audio(src));
    let merged = as_audio(&audio).unwrap();
    assert_eq!((merged.channel_count, merged.lfe), (6, 1));
    assert_eq!((merged.sample_rate, merged.bit_depth), (48_000, 24));
    assert_eq!(merged.dial_norm, -27); // min(0, -27)
    assert_eq!(merged.audio_mode, TsAudioMode::Extended);
    assert!(merged.has_extensions);
    assert_eq!(merged.ext_data.as_deref(), Some("x"));
    assert!(merged.core_stream.is_some());
    assert_eq!(Render.language_name(&audio), "Japanese");

    // Graphics: caption tallies + resolution copied.
    let mut dst = TsGraphicsStream::default();
    dst.base.stream_type = TsStreamType::PresentationGraphics;
    let mut src = TsGraphicsStream::default();
    src.base.stream_type = TsStreamType::PresentationGraphics;
    src.width = 1920;
    src.height = 1080;
    src.captions = 5;
    src.forced_captions = 1;
    let mut graphics = TsStream::Graphics(dst);
    merge_stream(&mut graphics, &TsStream::Graphics(src));
    // The `None` arms of `as_video`/`as_graphics` are exercised across variants.
    assert!(as_video(&audio).is_none());
    assert!(as_graphics(&video).is_none());
    let merged = as_graphics(&graphics).unwrap();
    assert_eq!((merged.width, merged.height), (1920, 1080));
    assert_eq!((merged.captions, merged.forced_captions), (5, 1));
}

#[test]
fn merge_stream_core_and_dialnorm_edge_cases() {
    // dial-norm min keeps the already-lower clip value; an existing core stream is
    // NOT overwritten by the source's (the `dst.core_stream.is_none()` guard). The
    // two cores carry distinct channel counts so a `&&`→`||` mutant — which would
    // overwrite — is caught: the merged core must stay the destination's.
    let mut dst = TsAudioStream::default();
    dst.base.stream_type = TsStreamType::Ac3TrueHdAudio;
    dst.dial_norm = -31; // already lower than the source's -27
    dst.core_stream =
        Some(Box::new(TsAudioStream { channel_count: 9, ..TsAudioStream::default() }));
    let mut src = TsAudioStream::default();
    src.base.stream_type = TsStreamType::Ac3TrueHdAudio;
    src.dial_norm = -27;
    src.core_stream =
        Some(Box::new(TsAudioStream { channel_count: 5, ..TsAudioStream::default() }));
    let mut audio = TsStream::Audio(dst);
    merge_stream(&mut audio, &TsStream::Audio(src));
    let merged = as_audio(&audio).unwrap();
    assert_eq!(merged.dial_norm, -31); // min(-31, -27)
    assert_eq!(merged.core_stream.as_ref().unwrap().channel_count, 9); // kept dst's core

    // A source with no core, onto a destination with no core → still none.
    let mut dst = TsAudioStream::default();
    dst.base.stream_type = TsStreamType::DtsAudio;
    let mut audio = TsStream::Audio(dst);
    merge_stream(&mut audio, &TsStream::Audio(TsAudioStream::default()));
    assert!(as_audio(&audio).unwrap().core_stream.is_none());
}

#[test]
fn merge_stream_ignores_text_and_type_mismatches() {
    // Text → the `_` arm carries no codec detail, but the base bit-rate/VBR merge.
    let mut dst = TsTextStream::default();
    dst.base.stream_type = TsStreamType::Subtitle;
    let mut src = TsTextStream::default();
    src.base.stream_type = TsStreamType::Subtitle;
    src.base.is_vbr = true;
    let mut text = TsStream::Text(dst);
    merge_stream(&mut text, &TsStream::Text(src));
    assert!(text.base().is_vbr);

    // A type mismatch is a no-op — the merge bails before touching `dst`.
    let mut dst = TsAudioStream::default();
    dst.base.stream_type = TsStreamType::Ac3Audio;
    let mut src = TsVideoStream::default();
    src.base.stream_type = TsStreamType::AvcVideo;
    src.base.bit_rate = 999;
    let mut audio = TsStream::Audio(dst);
    merge_stream(&mut audio, &TsStream::Video(src));
    assert_eq!(audio.base().bit_rate, 0); // unchanged: types differ
}

#[test]
fn stream_summary_reads_each_variant() {
    let mut video = TsVideoStream::default();
    video.base.pid = Pid::new(0x1011);
    video.base.stream_type = TsStreamType::AvcVideo;
    video.height = 1080;
    let summary = stream_summary(&Render, &TsStream::Video(video));
    assert_eq!(summary.pid, Pid::new(0x1011));
    assert_eq!(summary.height, 1080);
    assert_eq!(summary.stream_type.name(), "AVC_VIDEO");
    assert_eq!(summary.codec_short_name, "AVC");
    assert_eq!(summary.codec_name, "MPEG-4 AVC Video");
    assert_eq!(summary.codec_alt_name, "AVC");
    // A video row carries no audio detail and starts on the main angle.
    assert_eq!(summary.channel_description, "");
    assert_eq!((summary.sample_rate, summary.bit_depth, summary.channel_count), (0, 0, 0));
    assert_eq!(summary.angle_index, 0);
    assert_eq!(summary.language_code, "");

    let mut audio = TsAudioStream::default();
    audio.base.stream_type = TsStreamType::LpcmAudio;
    audio.base.set_language_code("jpn");
    audio.channel_count = 2;
    audio.lfe = 0;
    audio.sample_rate = 48_000;
    audio.bit_depth = 16;
    let summary = stream_summary(&Render, &TsStream::Audio(audio));
    assert_eq!(summary.height, 0);
    assert_eq!(summary.codec_short_name, "LPCM");
    assert_eq!(summary.codec_alt_name, "LPCM");
    assert_eq!(summary.language_code, "jpn");
    assert_eq!(summary.language_name, "Japanese");
    assert_eq!(summary.channel_description, "2.0");
    assert_eq!(
        (summary.sample_rate, summary.bit_depth, summary.channel_count),
        (48_000, 16, 2)
    );

    let mut graphics = TsGraphicsStream::default();
    graphics.base.stream_type = TsStreamType::PresentationGraphics;
    let summary = stream_summary(&Render, &TsStream::Graphics(graphics));
    assert_eq!(summary.codec_short_name, "PGS");
    assert_eq!(summary.codec_alt_name, "PGS");
    assert_eq!(summary.description, "");

    let mut text = TsTextStream::default();
    text.base.stream_type = TsStreamType::Subtitle;
    text.base.set_language_code("eng");
    let summary = stream_summary(&Render, &TsStream::Text(text));
    assert_eq!(
        (summary.codec_short_name.as_str(), summary.codec_name.as_str()),
        ("SUB", "Subtitle")
    );
    assert_eq!(summary.language_name, "English");
    assert_eq!(summary.language_code, "eng");
    assert_eq!(summary.codec_alt_name, "SUB");
}

#[test]
fn full_description_patches_audio_respells_video_and_falls_back() {
    // Audio with a measured rate: the description is respelled with that
    // rate patched in; without one, the row's own spelling is kept AS-IS
    // (not re-derived at rate zero — the stream's 512 kbps must survive).
    let mut audio = TsAudioStream::default();
    audio.base.stream_type = TsStreamType::LpcmAudio;
    audio.channel_count = 2;
    audio.sample_rate = 48_000;
    audio.bit_depth = 16;
    audio.base.bit_rate = 512_000;
    let mut patched = audio.duplicate();
    patched.base.bit_rate = 256_000;
    let respelled = Render.description(&TsStream::Audio(patched));
    let plain = Render.description(&TsStream::Audio(audio.duplicate()));
    assert_ne!(respelled, plain);
    let stream = TsStream::Audio(audio);
    let mut row = stream_summary(&Render, &stream);
    row.bitrate = 256_000;
    assert_eq!(full_description(&Render, &stream, &row), respelled);
    row.bitrate = 0;
    assert_eq!(full_description(&Render, &stream, &row), plain);

    // Video takes its own full (exact-luminance) description, never the
    // row's — a sentinel row description must not leak through.
    let mut video = TsVideoStream::default();
    video.base.stream_type = TsStreamType::AvcVideo;
    video.height = 1080;
    let stream = TsStream::Video(video);
    let expected = Render.full_description(&stream);
    let mut row = stream_summary(&Render, &stream);
    row.description = "sentinel".to_owned();
    assert_eq!(full_description(&Render, &stream, &row), expected);

    // Everything else keeps the row's description verbatim.
    let mut graphics = TsGraphicsStream::default();
    graphics.base.stream_type = TsStreamType::PresentationGraphics;
    let stream = TsStream::Graphics(graphics);
    let mut row = stream_summary(&Render, &stream);
    row.description = "kept".to_owned();
    assert_eq!(full_description(&Render, &stream, &row), "kept");
}

#[test]
fn build_sorted_streams_takes_graphics_detail_from_the_resolved_streams() {
    // The clip info (and the quick scan) carry no PGS detail; the
    // resolved presented stream holds the full pass's re-merged caption
    // tallies — the row's description comes from there.
    let mut clip = BTreeMap::new();
    let mut graphics = TsGraphicsStream::default();
    graphics.base.pid = Pid::new(0x1200);
    graphics.base.stream_type = TsStreamType::PresentationGraphics;
    graphics.base.set_language_code("deu");
    clip.insert(0x1200, TsStream::Graphics(graphics));

    let mut resolved = bare_playlist();
    let mut presented = TsGraphicsStream {
        captions: 837,
        width: 1920,
        height: 1080,
        ..TsGraphicsStream::default()
    };
    presented.base.pid = Pid::new(0x1200);
    presented.base.stream_type = TsStreamType::PresentationGraphics;
    resolved.streams = BTreeMap::from([(0x1200_u16, TsStream::Graphics(presented))]);

    let rows = build_sorted_streams(&Render, &clip, None, &resolved, 0);
    assert_eq!(rows.first().unwrap().description, "1920x1080 / 837 Captions");

    // An unresolved playlist keeps the quick detail: an empty description.
    let rows = build_sorted_streams(&Render, &clip, None, &bare_playlist(), 0);
    assert_eq!(rows.first().unwrap().description, "");
}

#[test]
fn build_sorted_streams_orders_clones_and_merges() {
    // A clip with a 1080p AVC video (PID 0x1011) and an English AC3 audio (0x1100).
    let mut clip = BTreeMap::new();
    let mut video = TsVideoStream::default();
    video.base.pid = Pid::new(0x1011);
    video.base.stream_type = TsStreamType::AvcVideo;
    video.set_video_format(TsVideoFormat::Videoformat1080p);
    clip.insert(0x1011, TsStream::Video(video));
    let mut audio = TsAudioStream::default();
    audio.base.pid = Pid::new(0x1100);
    audio.base.stream_type = TsStreamType::Ac3Audio;
    audio.base.set_language_code("eng");
    clip.insert(0x1100, TsStream::Audio(audio));

    // No scan, no angles → one row per stream, ordered by PID. An
    // unresolved playlist leaves the measured rates at zero.
    let unresolved = bare_playlist();
    let rows = build_sorted_streams(&Render, &clip, None, &unresolved, 0);
    assert_eq!(rows.len(), 2);
    assert_eq!(rows.first().unwrap().pid, Pid::new(0x1011));
    assert_eq!(rows.first().unwrap().stream_type.name(), "AVC_VIDEO");
    assert_eq!(rows.first().unwrap().bitrate, 0);
    assert_eq!(rows.get(1).unwrap().pid, Pid::new(0x1100));
    assert_eq!(rows.get(1).unwrap().language_name, "English");

    // Two extra angles → the video PID appears three times (base + 2 clones),
    // audio once → four rows, still PID-ordered with the clones grouped first.
    // The clones carry their 1-based angle index; main rows stay 0.
    let rows = build_sorted_streams(&Render, &clip, None, &unresolved, 2);
    assert_eq!(rows.len(), 4);
    assert!(rows.iter().take(3).all(|r| r.pid == Pid::new(0x1011)));
    assert_eq!(rows.get(3).unwrap().pid, Pid::new(0x1100));
    let angles: Vec<usize> = rows.iter().map(|r| r.angle_index).collect();
    assert_eq!(angles, [0, 1, 2, 0]);

    // A resolved playlist supplies each row's measured rates: the main map
    // for the main rows, each angle's own map for its clone.
    let mut resolved = bare_playlist();
    resolved.streams = clip.clone();
    let main_video = resolved.streams.get_mut(&0x1011).expect("the video is presented");
    set_rates(main_video, 26_030_000, 26_031_000);
    set_rates(resolved.streams.get_mut(&0x1100).expect("the audio is presented"), 640_000, 0);
    let mut angle = clip.clone();
    let angle_video = angle.get_mut(&0x1011).expect("the angle video is presented");
    set_rates(angle_video, 26_120_000, 26_121_000);
    resolved.angle_streams = vec![angle];
    let rows = build_sorted_streams(&Render, &clip, None, &resolved, 1);
    assert_eq!(rows.len(), 3);
    assert_eq!(rows.first().unwrap().bitrate, 26_030_000);
    assert_eq!(rows.first().unwrap().active_bitrate, 26_031_000);
    assert_eq!(rows.get(1).unwrap().bitrate, 26_120_000);
    assert_eq!(rows.get(1).unwrap().active_bitrate, 26_121_000);
    assert_eq!(rows.get(2).unwrap().bitrate, 640_000);
    assert_eq!(rows.get(2).unwrap().active_bitrate, 0);

    // More angle clones than resolved angle maps → the surplus clone keeps
    // zero rates rather than borrowing another angle's.
    let rows = build_sorted_streams(&Render, &clip, None, &resolved, 2);
    assert_eq!(rows.len(), 4);
    assert_eq!(rows.get(1).unwrap().bitrate, 26_120_000);
    assert_eq!(rows.get(2).unwrap().bitrate, 0);

    // A scanned AVC stream supplies the encoding profile (the merge ran).
    let mut scanned = BTreeMap::new();
    let mut scanned_video = TsVideoStream::default();
    scanned_video.base.pid = Pid::new(0x1011);
    scanned_video.base.stream_type = TsStreamType::AvcVideo;
    scanned_video.encoding_profile = Some("High Profile 4.1".to_owned());
    scanned.insert(0x1011, TsStream::Video(scanned_video));
    let rows = build_sorted_streams(&Render, &clip, Some(&scanned), &unresolved, 0);
    assert!(rows.first().unwrap().description.contains("High Profile 4.1"));

    // A scanned stream whose PID is absent from the clip is ignored — neither
    // merged nor presented; the clip's own streams stay the presented set.
    let mut orphan = BTreeMap::new();
    let mut orphan_audio = TsAudioStream::default();
    orphan_audio.base.pid = Pid::new(0x9999);
    orphan_audio.base.stream_type = TsStreamType::Ac3Audio;
    orphan.insert(0x9999, TsStream::Audio(orphan_audio));
    assert_eq!(build_sorted_streams(&Render, &clip, Some(&orphan), &unresolved, 0).len(), 2);
}

#[test]
fn build_sorted_streams_presents_the_resolved_dependent_view() {
    // A clip with only the base video; the resolved playlist also presents
    // the interleaved MVC dependent view with a measured rate.
    let mut clip = BTreeMap::new();
    let mut video = TsVideoStream::default();
    video.base.pid = Pid::new(0x1011);
    video.base.stream_type = TsStreamType::AvcVideo;
    clip.insert(0x1011, TsStream::Video(video));

    let mut resolved = bare_playlist();
    resolved.streams = clip.clone();
    let mut mvc = TsVideoStream::default();
    mvc.base.pid = Pid::new(MVC_PID);
    mvc.base.stream_type = TsStreamType::MvcVideo;
    mvc.base.bit_rate = 7_579_000;
    resolved.streams.insert(MVC_PID, TsStream::Video(mvc));

    let rows = build_sorted_streams(&Render, &clip, None, &resolved, 0);
    assert_eq!(rows.len(), 2);
    let row = rows.get(1).unwrap();
    assert_eq!(row.pid, Pid::new(MVC_PID));
    assert_eq!(row.stream_type.name(), "MVC_VIDEO");
    assert_eq!(
        (row.codec_short_name.as_str(), row.codec_name.as_str()),
        ("MVC", "MPEG-4 MVC Video")
    );
    assert_eq!(row.description, "");
    assert_eq!(row.bitrate, 7_579_000);
    assert!(row.ssif_only);
    assert!(!row.is_hidden, "the dependent view is never marked hidden");
    // The base video row is an (undeclared) clip stream: hidden, not
    // SSIF-only.
    assert!(rows.first().unwrap().is_hidden);
    assert!(!rows.first().unwrap().ssif_only);

    // A clip that declares the MVC PID itself yields a plain clip-stream
    // row — no SSIF presentation, and the hidden check applies as usual.
    let mut declared = clip.clone();
    let mut own = TsVideoStream::default();
    own.base.pid = Pid::new(MVC_PID);
    own.base.stream_type = TsStreamType::MvcVideo;
    declared.insert(MVC_PID, TsStream::Video(own));
    let rows = build_sorted_streams(&Render, &declared, None, &resolved, 0);
    assert_eq!(rows.len(), 2);
    assert!(!rows.get(1).unwrap().ssif_only);
    assert!(rows.get(1).unwrap().is_hidden);
}

/// A [`ClipSummary`] with the given angle/start/length/packet count and no
/// per-stream tallies.
fn clip_summary(angle_index: i32, time_in: f64, length: f64, packets: u64) -> ClipSummary {
    ClipSummary {
        name: "00000.M2TS".to_owned(),
        display_name: "00000.M2TS".to_owned(),
        file_size: 0,
        interleaved_file_size: 0,
        angle_index,
        relative_time_in: ticks(time_in),
        length: ticks(length),
        payload_bytes: 0,
        packet_count: packets,
        packet_ticks: 0,
        file_ticks: 0,
        streams: Vec::new(),
    }
}

/// A [`PlaylistSummary`] carrying only the fields the totals math reads.
fn playlist_summary(
    total_length: f64,
    angle_count: usize,
    clips: Vec<ClipSummary>,
) -> PlaylistSummary {
    PlaylistSummary {
        name: "00000.MPLS".to_owned(),
        total_length: i128::from(ticks(total_length)),
        file_size: 0,
        interleaved_file_size: 0,
        chapter_count: 0,
        stream_count: 0,
        angle_count,
        has_loops: false,
        streams: Vec::new(),
        clips,
        chapters: Vec::new(),
    }
}

#[test]
fn estimated_bytes_prefer_the_interleaved_size_then_the_m2ts_size() {
    // Both sizes known: the interleaved total wins (it already contains the
    // m2ts bytes). Only the m2ts: that. Neither: absent.
    let sizes = |interleaved, m2ts| {
        let clip = ClipSummary {
            file_size: m2ts,
            interleaved_file_size: interleaved,
            ..clip_summary(0, 0.0, 0.0, 0)
        };
        let playlist = PlaylistSummary {
            file_size: m2ts,
            interleaved_file_size: interleaved,
            ..playlist_summary(0.0, 0, Vec::new())
        };
        (playlist.estimated_bytes(), clip.estimated_bytes())
    };
    assert_eq!(sizes(2000, 500), (Some(2000), Some(2000)));
    assert_eq!(sizes(0, 500), (Some(500), Some(500)));
    assert_eq!(sizes(0, 0), (None, None));
}

#[test]
fn chapter_summaries_walk_the_first_video_pid_diagnostics() {
    // An audio stream below the video PID proves the diagnostics PID is the
    // first *video* stream, not merely the first stream.
    let mut audio = TsAudioStream::default();
    audio.base.stream_type = TsStreamType::Ac3Audio;
    let mut video = TsVideoStream::default();
    video.base.stream_type = TsStreamType::AvcVideo;
    let mut playlist = TsPlaylistFile {
        file_type: "MPLS0200".to_owned(),
        name: "00000.MPLS".to_owned(),
        mvc_base_view_r: false,
        chapters: vec![0],
        playlist_streams: BTreeMap::new(),
        streams: BTreeMap::from([
            (0x1010, TsStream::Audio(audio)),
            (0x1011, TsStream::Video(video)),
        ]),
        angle_streams: Vec::new(),
        stream_clips: vec![
            TsStreamClip { name: "00000.M2TS".to_owned(), ..TsStreamClip::default() },
            // No measured file for this clip → it is skipped whole.
            TsStreamClip { name: "00001.M2TS".to_owned(), ..TsStreamClip::default() },
        ],
        angle_count: 0,
    };
    let mut file = TsStreamFile::new("00000.m2ts");
    file.stream_diagnostics.insert(
        0x1011,
        vec![
            TsStreamDiagnostics {
                bytes: 1000,
                packets: 1,
                marker: ticks(1.0),
                interval: ticks(1.0),
                tag: Some("I".to_owned()),
            },
            TsStreamDiagnostics {
                bytes: 1000,
                packets: 1,
                marker: ticks(2.0),
                interval: ticks(1.0),
                tag: None,
            },
        ],
    );
    let measured = table(vec![("00000.M2TS", file)]);

    let rows = build_chapter_summaries(&playlist, &measured, i128::from(ticks(4.0)));
    assert_eq!(rows.len(), 1);
    let row = rows.first().unwrap();
    assert_eq!(seconds(row.length).to_bits(), 4.0_f64.to_bits());
    assert_eq!(bits(row.avg_rate).to_bits(), 4000.0_f64.to_bits()); // 2000 B × 8 / 4 s
    assert_eq!(average(row.avg_frame_size).to_bits(), 2000.0_f64.to_bits()); // one tagged frame

    // Without a presented video stream there is no diagnostics PID: the
    // rows keep their times but measure nothing.
    playlist.streams.remove(&0x1011);
    let rows = build_chapter_summaries(&playlist, &measured, i128::from(ticks(4.0)));
    assert_eq!(rows.len(), 1);
    assert_eq!(bits(rows.first().unwrap().avg_rate).to_bits(), 0.0_f64.to_bits());
    assert_eq!(seconds(rows.first().unwrap().length).to_bits(), 4.0_f64.to_bits());
}

#[test]
fn clip_packet_size_and_bit_rate_derive_from_the_tallies() {
    let mut clip = clip_summary(0, 0.0, 10.0, 6);
    clip.packet_ticks = i128::from(ticks(4.0));
    assert_eq!(clip.packet_size(), 1152); // 6 packets × 192
    assert_eq!(clip.packet_bit_rate(), 2304); // 1152 × 8 / 4.0

    // Nothing demuxed → zero rate, not a division by zero.
    clip.packet_ticks = i128::from(ticks(0.0));
    assert_eq!(clip.packet_bit_rate(), 0);

    // The rate rounds half-to-even: 100 packets × 192 × 8 / 7 s = 21 942.857…
    clip.packet_count = 100;
    clip.packet_ticks = i128::from(ticks(7.0));
    assert_eq!(clip.packet_bit_rate(), 21_943);
}

#[test]
fn rate_over_guards_the_zero_duration() {
    assert_eq!(rate_over(1152, i128::from(ticks(4.0))), 2304);
    assert_eq!(rate_over(1152, i128::from(ticks(0.0))), 0);
    assert_eq!(rate_over(1152, i128::from(ticks(-1.0))), 0);
}

#[test]
fn playlist_totals_split_main_and_angle_clips() {
    // Main clips: 10 packets at t=0 (40 s) and 20 packets at t=40 (60 s);
    // angle 1 replaces the t=0 slot with 30 packets; angle 2 has no clips.
    let playlist = playlist_summary(
        100.0,
        2,
        vec![
            clip_summary(0, 0.0, 40.0, 10),
            clip_summary(1, 0.0, 40.0, 30),
            clip_summary(0, 40.0, 60.0, 20),
        ],
    );
    assert_eq!(playlist.total_packet_size(), 30 * 192); // main clips only
    assert_eq!(playlist.total_angle_packet_size(), 60 * 192); // every clip
    assert_eq!(seconds(playlist.total_angle_length()).to_bits(), 140.0_f64.to_bits());
    // 30 × 192 × 8 / 100 s = 460.8 → 461 (half-to-even rounding).
    assert_eq!(playlist.total_bit_rate(), 461);
    // 60 × 192 × 8 / 140 s = 658.28… → 658.
    assert_eq!(playlist.total_angle_bit_rate(), 658);

    let angles = playlist.angle_totals();
    assert_eq!(angles.len(), 2);
    // Angle 1: its own clip (30 packets, 40 s); its timeline replaces the
    // t=0 main clip, keeping the t=40 one (30 + 20 packets).
    let one = angles.first().unwrap();
    assert_eq!(seconds(one.length).to_bits(), 40.0_f64.to_bits());
    assert_eq!(one.packet_size, 30 * 192);
    assert_eq!(one.timeline_packet_size, 50 * 192);
    // Angle 2: no clips of its own — the timeline is the main clips.
    let two = angles.get(1).unwrap();
    assert_eq!(seconds(two.length).to_bits(), 0.0_f64.to_bits());
    assert_eq!(two.packet_size, 0);
    assert_eq!(two.timeline_packet_size, 30 * 192);

    // No angles → no totals.
    assert!(playlist_summary(100.0, 0, Vec::new()).angle_totals().is_empty());
}

#[test]
fn angle_totals_stop_at_the_widest_angle_table_a_playlist_can_declare() {
    // 254 extra angles is a one-byte angle count of 255, so a summary a scan
    // produced is never clamped; a larger count reaches here only from a
    // hand-assembled summary, where it would otherwise buy one entry (and
    // one walk of the clip list) per angle asked for.
    let clips = || vec![clip_summary(0, 0.0, 40.0, 10), clip_summary(1, 0.0, 40.0, 30)];
    assert_eq!(playlist_summary(100.0, 253, clips()).angle_totals().len(), 253);
    assert_eq!(playlist_summary(100.0, 254, clips()).angle_totals().len(), 254);
    assert_eq!(playlist_summary(100.0, 255, clips()).angle_totals().len(), 254);
    assert_eq!(playlist_summary(100.0, usize::MAX, clips()).angle_totals().len(), 254);
}

#[test]
fn playlist_totals_invariants() {
    let mut state: u64 = 3;
    let mut next = |bound: u64| {
        state = state.wrapping_mul(6_364_136_223_846_793_005).wrapping_add(1_442_695_040_888_963_407);
        (state >> 33) % bound
    };
    for angle_count in [0, 1, 2, 7, 253, 254, 255, 299, usize::MAX] {
        for _ in 0..20 {
            let mut clips = Vec::new();
            for _ in 0..next(8) {
                let angle = next(3) as i32;
                let slot = next(4) as f64;
                let length = 1.0 + next(99) as f64;
                clips.push(clip_summary(angle, slot * 50.0, length, next(1000)));
            }
            let playlist = playlist_summary(100.0, angle_count, clips);
            let total = playlist.total_packet_size();
            let total_angle = playlist.total_angle_packet_size();
            assert!(total <= total_angle);
            let angles = playlist.angle_totals();
            assert_eq!(angles.len(), angle_count.min(254));
            for angle in &angles {
                assert!(angle.packet_size <= angle.timeline_packet_size);
                assert!(angle.timeline_packet_size <= total_angle);
            }
        }
    }
}

/// Builds a parsed playlist whose clip list is `clips` and whose angle
/// count is `angle_count`, with empty stream maps.
fn playlist_with_clips(angle_count: i32, clips: Vec<TsStreamClip>) -> TsPlaylistFile {
    let mut playlist = bare_playlist();
    playlist.angle_count = angle_count;
    playlist.stream_clips = clips;
    playlist
}

#[test]
fn clear_measurements_zeroes_the_clip_tallies() {
    let playlist = playlist_with_clips(
        0,
        vec![TsStreamClip {
            name: "00000.M2TS".to_owned(),
            payload_bytes: 9,
            packet_count: 8,
            packet_ticks: i128::from(ticks(7.0)),
            ..TsStreamClip::default()
        }],
    );
    let mut playlists = vec![playlist];
    clear_measurements(&mut playlists);
    let clip = playlists.first().unwrap().stream_clips.first().unwrap();
    assert_eq!(clip.payload_bytes, 0);
    assert_eq!(clip.packet_count, 0);
    assert_eq!(clip.packet_ticks, 0);
}

#[test]
fn resolve_playlist_streams_presents_reset_copies_and_angle_maps() {
    // The reference clip declares a video and an audio stream; the playlist
    // has two extra angles.
    let mut clip_streams = BTreeMap::new();
    let mut video = TsVideoStream::default();
    video.base.pid = Pid::new(0x1011);
    video.base.stream_type = TsStreamType::AvcVideo;
    clip_streams.insert(0x1011, TsStream::Video(video));
    let mut audio = TsAudioStream::default();
    audio.base.pid = Pid::new(0x1100);
    audio.base.stream_type = TsStreamType::Ac3Audio;
    audio.base.set_language_code("eng");
    clip_streams.insert(0x1100, TsStream::Audio(audio));

    // The quick-scanned file supplies codec detail to merge.
    let mut file = TsStreamFile::new("00000.m2ts");
    let mut scanned_video = TsVideoStream::default();
    scanned_video.base.pid = Pid::new(0x1011);
    scanned_video.base.stream_type = TsStreamType::AvcVideo;
    scanned_video.base.is_vbr = true;
    scanned_video.base.payload_bytes = 999; // demux counter, must not leak
    scanned_video.encoding_profile = Some("High Profile 4.1".to_owned());
    file.streams.insert(0x1011, TsStream::Video(scanned_video));

    let metas = vec![ClipMeta {
        clip_streams: &clip_streams,
        scanned: Some(&file),
        has_50hz_video: false,
        relative_length: Ratio { num: 1, den: 1 },
        length: ticks(10.0),
        stream_file_present: true,
    }];
    let mut playlist = playlist_with_clips(2, Vec::new());
    resolve_playlist_streams(&mut playlist, &metas);

    // The presented streams: reset copies with the merged detail.
    assert_eq!(playlist.streams.len(), 2);
    let video = playlist.streams.get(&0x1011).unwrap();
    assert!(video.base().is_vbr);
    assert_eq!(video.base().payload_bytes, 0);
    let v = as_video(video).expect("video stays video");
    assert_eq!(v.encoding_profile.as_deref(), Some("High Profile 4.1"));
    assert_eq!(
        Render.language_name(playlist.streams.get(&0x1100).unwrap()),
        "English"
    );

    // Two angle maps, video-only, with the angle index stamped.
    assert_eq!(playlist.angle_streams.len(), 2);
    for (index, angle) in playlist.angle_streams.iter().enumerate() {
        assert_eq!(angle.len(), 1);
        let clone = angle.get(&0x1011).unwrap();
        assert_eq!(clone.base().angle_index, i32::try_from(index).unwrap().wrapping_add(1));
        assert!(clone.base().is_vbr);
    }

    // No reference clip → the maps stay empty.
    let mut unresolved = playlist_with_clips(1, Vec::new());
    resolve_playlist_streams(&mut unresolved, &Vec::new());
    assert!(unresolved.streams.is_empty());
    assert!(unresolved.angle_streams.is_empty());
}

#[test]
fn resolve_playlist_streams_presents_the_interleaved_dependent_view() {
    let mut clip_streams = BTreeMap::new();
    let mut video = TsVideoStream::default();
    video.base.pid = Pid::new(0x1011);
    video.base.stream_type = TsStreamType::AvcVideo;
    clip_streams.insert(0x1011, TsStream::Video(video));

    // The scanned file carries the MVC dependent view the clip info omits.
    let mvc = |pid: u16| {
        let mut stream = TsVideoStream::default();
        stream.base.pid = Pid::new(pid);
        stream.base.stream_type = TsStreamType::MvcVideo;
        TsStream::Video(stream)
    };
    let interleaved = || "00000.SSIF".to_owned();
    let mut file = TsStreamFile::new("00000.m2ts");
    file.interleaved_file = Some(interleaved());
    file.streams.insert(MVC_PID, mvc(MVC_PID));

    let mut playlist = playlist_with_clips(0, Vec::new());
    let metas = vec![ClipMeta {
        clip_streams: &clip_streams,
        scanned: Some(&file),
        has_50hz_video: false,
        relative_length: Ratio { num: 1, den: 1 },
        length: ticks(10.0),
        stream_file_present: true,
    }];
    resolve_playlist_streams(&mut playlist, &metas);
    assert!(playlist.streams.contains_key(&MVC_PID), "dependent view presented");
    assert_eq!(playlist.streams.len(), 2);

    // Without the interleaved source the dependent view stays absent.
    let mut plain = TsStreamFile::new("00000.m2ts");
    plain.streams.insert(MVC_PID, mvc(MVC_PID));
    let mut playlist = playlist_with_clips(0, Vec::new());
    let metas = vec![ClipMeta {
        clip_streams: &clip_streams,
        scanned: Some(&plain),
        has_50hz_video: false,
        relative_length: Ratio { num: 1, den: 1 },
        length: ticks(10.0),
        stream_file_present: true,
    }];
    resolve_playlist_streams(&mut playlist, &metas);
    assert!(!playlist.streams.contains_key(&MVC_PID));

    // A clip-info-declared stream on the MVC PID is not overwritten.
    let mut declared = clip_streams.clone();
    let mut own = TsAudioStream::default();
    own.base.pid = Pid::new(MVC_PID);
    own.base.stream_type = TsStreamType::Ac3Audio;
    declared.insert(MVC_PID, TsStream::Audio(own));
    let mut file = TsStreamFile::new("00000.m2ts");
    file.interleaved_file = Some(interleaved());
    file.streams.insert(MVC_PID, mvc(MVC_PID));
    let metas = vec![ClipMeta {
        clip_streams: &declared,
        scanned: Some(&file),
        has_50hz_video: false,
        relative_length: Ratio { num: 1, den: 1 },
        length: ticks(10.0),
        stream_file_present: true,
    }];
    let mut playlist = playlist_with_clips(0, Vec::new());
    resolve_playlist_streams(&mut playlist, &metas);
    assert_eq!(playlist.streams.get(&MVC_PID).unwrap().stream_type(), TsStreamType::Ac3Audio);
}

#[test]
fn clip_summaries_skip_a_registration_order_entry_without_a_stream() {
    // The two registration fields are public: a caller can desync them, so
    // an order entry whose stream is gone is skipped, not trusted.
    let mut audio = TsAudioStream::default();
    audio.base.pid = Pid::new(0x1100);
    audio.base.stream_type = TsStreamType::Ac3Audio;
    audio.base.payload_bytes = 64;
    audio.base.packet_count = 2;
    let mut file = TsStreamFile::new("00000.m2ts");
    file.stream_order = vec![0x1011, 0x1100];
    file.streams = BTreeMap::from([(0x1100, TsStream::Audio(audio))]);
    let playlist = TsPlaylistFile {
        file_type: "MPLS0300".to_owned(),
        name: "00000.MPLS".to_owned(),
        mvc_base_view_r: false,
        chapters: Vec::new(),
        playlist_streams: BTreeMap::new(),
        streams: BTreeMap::from([(0x1100, TsStream::Audio(TsAudioStream::default()))]),
        angle_streams: Vec::new(),
        stream_clips: vec![TsStreamClip {
            name: "00000.M2TS".to_owned(),
            ..TsStreamClip::default()
        }],
        angle_count: 0,
    };
    let measured = table(vec![("00000.M2TS", file)]);
    let stream_files = table(vec![("00000.M2TS", 4096_u64)]);
    let interleaved_files = table(vec![("00000.SSIF", 8192_u64)]);
    let clips = build_clip_summaries(&Render, &playlist, &stream_files, &interleaved_files, &measured);
    let clip = clips.first().unwrap();
    // The on-disk sizes come straight from the two size maps, keyed by the
    // clip's `*.m2ts` name and its `<stem>.SSIF`.
    assert_eq!(clip.file_size, 4096);
    assert_eq!(clip.interleaved_file_size, 8192);
    let tallies = &clip.streams;
    assert_eq!(tallies.len(), 1);
    assert_eq!(tallies.first().unwrap().pid, Pid::new(0x1100));
    assert_eq!(tallies.first().unwrap().codec_short_name, "AC3");
    assert_eq!(tallies.first().unwrap().stream_type, TsStreamType::Ac3Audio);
}
#[test]
fn scan_total_budgets_selected_sources_once_preferring_the_ssif() {
    let stream_files = table(vec![("00000.M2TS", 1000_u64), ("00001.M2TS", 500_u64)]);
    let interleaved_files = table(vec![("00000.SSIF", 4000_u64)]);
    // No selection: every file, its .ssif source preferred, once — the
    // reported budget is the full pass only.
    assert_eq!(scan_total(&stream_files, &interleaved_files, None), 4000 + 500);
    // A selection narrows the budget to the named files.
    let only_one = vec!["00001.M2TS".to_owned()];
    assert_eq!(scan_total(&stream_files, &interleaved_files, Some(&only_one)), 500);
    // An empty selection budgets nothing.
    assert_eq!(scan_total(&stream_files, &interleaved_files, Some(&Vec::new())), 0);
    // Without interleaved sources the file's own size counts.
    assert_eq!(scan_total(&stream_files, &table(Vec::new()), None), 1500);
}

#[test]
fn progress_advances_clamped_and_snaps_at_file_boundaries() {
    let event = |p: ScanProgress<'_>| (p.file.to_owned(), p.done, p.total);
    let mut progress = Progress::new(100);
    let events = [
        event(progress.advance("A.M2TS", 30)),
        // A heartbeat reports without moving the count.
        event(progress.heartbeat("A.M2TS")),
        // An over-read clamps at the total instead of overshooting.
        event(progress.advance("A.M2TS", 90)),
        // A snap target below the current count never moves it backwards…
        event(progress.finish_file("A.M2TS", 50)),
    ];
    assert_eq!(
        events,
        [
            ("A.M2TS".to_owned(), 30, 100),
            ("A.M2TS".to_owned(), 30, 100),
            ("A.M2TS".to_owned(), 100, 100),
            ("A.M2TS".to_owned(), 100, 100),
        ]
    );

    // …and a snap past a short read pulls the count up to the boundary.
    let mut progress = Progress::new(100);
    let events =
        [event(progress.advance("B.M2TS", 10)), event(progress.finish_file("B.M2TS", 60))];
    assert_eq!(events, [("B.M2TS".to_owned(), 10, 100), ("B.M2TS".to_owned(), 60, 100)]);
}

#[test]
fn clip_stem_strips_either_stream_extension() {
    assert_eq!(clip_stem("00000.M2TS"), "00000");
    assert_eq!(clip_stem("00000.FMTS"), "00000");
    assert_eq!(clip_stem("noext"), "noext");
}

#[test]
fn a_title_is_read_from_bytes_that_are_not_quite_text() {
    let mut bytes = title_xml("Movie");
    // A byte that is no text is replaced, and the rest is read.
    let at = bytes.windows(5).position(|w| w == b"Movie").unwrap();
    bytes[at] = 0xFF;
    assert_eq!(read_disc_title_from(&bytes).as_deref(), Some("\u{FFFD}ovie"));
    assert_eq!(read_disc_title_from(b"<not xml"), None);
}

#[test]
fn a_title_is_found_only_in_its_namespace() {
    let other = "<disclib xmlns:di=\"urn:other\">\
                 <di:discinfo><di:title><di:name>X</di:name></di:title></di:discinfo></disclib>";
    assert_eq!(read_disc_title(other), None);
    // The first of several names is the title.
    let two = "<disclib xmlns:di=\"urn:BDA:bdmv;discinfo\"><di:discinfo><di:title>\
               <di:name>A</di:name><di:name>B</di:name></di:title></di:discinfo></disclib>";
    assert_eq!(read_disc_title(two).as_deref(), Some("A"));
}

#[test]
fn an_interleaved_file_counts_without_its_stream_file() {
    let playlist = TsPlaylistFile {
        file_type: "MPLS0300".to_owned(),
        name: "00000.MPLS".to_owned(),
        mvc_base_view_r: false,
        chapters: Vec::new(),
        playlist_streams: BTreeMap::new(),
        streams: BTreeMap::new(),
        angle_streams: Vec::new(),
        stream_clips: vec![TsStreamClip {
            name: "00000.M2TS".to_owned(),
            ..TsStreamClip::default()
        }],
        angle_count: 0,
    };
    let clip_file = TsStreamClipFile {
        file_type: "HDMV0300".to_owned(),
        is_valid: true,
        name: "00000.CLPI".to_owned(),
        streams: BTreeMap::new(),
    };
    let (summary, _) = build_summary(
        &Render,
        &playlist,
        &table(vec![("00000.CLPI", clip_file)]),
        &table(Vec::new()),
        &table(vec![("00000.SSIF", 500_u64)]),
        &table(Vec::new()),
        &table(Vec::new()),
    )
    .unwrap();
    assert_eq!(summary.interleaved_file_size, 500);
    assert_eq!(summary.clips.first().unwrap().interleaved_file_size, 500);
    assert_eq!(summary.clips.first().unwrap().file_size, 0);
}

/// Words that are the same for every stream.
struct Same;

impl StreamText for Same {
    fn codec_short_name(&self, _: &TsStream) -> String {
        "short".to_owned()
    }

    fn codec_name(&self, _: &TsStream) -> String {
        "name".to_owned()
    }

    fn codec_alt_name(&self, _: &TsStream) -> String {
        "alt".to_owned()
    }

    fn language_name(&self, _: &TsStream) -> String {
        "language".to_owned()
    }

    fn description(&self, _: &TsStream) -> String {
        "description".to_owned()
    }

    fn full_description(&self, _: &TsStream) -> String {
        "full".to_owned()
    }

    fn channel_description(&self, _: &TsStream) -> String {
        "channels".to_owned()
    }
}

#[test]
fn a_stream_without_a_language_has_no_language_name() {
    let video = TsStream::Video(TsVideoStream::default());
    assert_eq!(stream_summary(&Same, &video).language_name, "");
    let mut audio = TsAudioStream::default();
    audio.base.language_code = Some(LanguageCode { first: 'e', second: 'n', third: 'g' });
    assert_eq!(stream_summary(&Same, &TsStream::Audio(audio)).language_name, "language");
}

#[test]
fn merging_graphics_shares_the_caption_ids() {
    let ids = Arc::new(vec![7_u32, 9]);
    let mut src = TsGraphicsStream::default();
    src.base.stream_type = TsStreamType::PresentationGraphics;
    src.caption_ids = Some(Arc::clone(&ids));
    let mut dst = TsGraphicsStream::default();
    dst.base.stream_type = TsStreamType::PresentationGraphics;
    dst.caption_ids = Some(Arc::new(vec![1]));
    let mut graphics = TsStream::Graphics(dst);
    merge_stream(&mut graphics, &TsStream::Graphics(src));
    let merged = as_graphics(&graphics).unwrap().caption_ids.clone().unwrap();
    assert!(Arc::ptr_eq(&merged, &ids));
}
