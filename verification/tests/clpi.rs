//! Clip information files.

use std::collections::BTreeMap;

use bdinfo_rs_core::bdrom::clpi::{Ratio, TsStreamClip, TsStreamClipFile};
use bdinfo_rs_core::primitives::Pid;
use bdinfo_rs_core::stream::{
    TsAspectRatio, TsAudioStream, TsChannelLayout, TsFrameRate, TsGraphicsStream, TsStream,
    TsStreamType, TsTextStream, TsVideoFormat, TsVideoStream,
};

/// One per-program 8-byte header: `spn_program_sequence_start` +
/// `program_map_pid` + the stream count + `num_groups`. The fields around
/// the count are non-zero filler, so an offset slip lands on visibly
/// different bytes.
fn program_header(stream_count: usize) -> Vec<u8> {
    let mut header = 0x0102_0304_u32.to_be_bytes().to_vec(); // spn start
    header.extend_from_slice(&0x0100_u16.to_be_bytes()); // program_map_pid
    header.push(u8::try_from(stream_count).unwrap());
    header.push(1); // num_groups
    header
}

/// One stream entry: `[PID:2][len=5][coding_type][payload:4]`, where
/// `payload` is the four bytes after the coding-type byte.
fn entry_bytes(pid: u16, coding_type: u8, payload: [u8; 4]) -> Vec<u8> {
    let mut entry = pid.to_be_bytes().to_vec();
    entry.push(5); // coding-info length (coding_type + 4 payload bytes)
    entry.push(coding_type);
    entry.extend_from_slice(&payload);
    entry
}

/// Builds a minimal valid `*.clpi`: header → `ProgramInfo` at offset 16 →
/// one program sequence carrying `entries`.
fn build_clpi(magic: [u8; 8], entries: &[(u16, u8, [u8; 4])]) -> Vec<u8> {
    let mut clip_data = vec![0_u8]; // index 0: reserved byte
    clip_data.push(1); // index 1: num_prog
    clip_data.extend(program_header(entries.len())); // 2..10; entries at 10
    for &(pid, coding_type, payload) in entries {
        clip_data.extend(entry_bytes(pid, coding_type, payload));
    }
    let mut buf = Vec::new();
    buf.extend_from_slice(&magic); // 0..8
    buf.extend_from_slice(&[0_u8; 4]); // 8..12 (SequenceInfo addr, unused)
    buf.extend_from_slice(&16_u32.to_be_bytes()); // 12..16 ProgramInfo addr
    buf.extend_from_slice(&u32::try_from(clip_data.len()).unwrap().to_be_bytes()); // 16..20 length
    buf.extend_from_slice(&clip_data); // 20..
    buf
}

#[test]
fn scan_parses_every_stream_kind() {
    // video, audio, graphics, subtitle => streams; MVC + unknown => skipped.
    let entries = [
        (0x1011_u16, 0x1B_u8, [0x62, 0x30, 0x00, 0x00]), // AVC: 1080p/24, 16:9
        (0x1100, 0x86, [0x61, b'd', b'e', b'u']),        // DTS-HD MA: multi/48k deu
        (0x1200, 0x90, [b'e', b'n', b'g', 0x00]),        // PG: eng
        (0x1A00, 0x92, [0x00, b'f', b'r', b'a']),        // Subtitle: fra
        (0x1B00, 0x20, [0x00, 0x00, 0x00, 0x00]),        // MVC: no stream emitted
        (0x1C00, 0x99, [0x00, 0x00, 0x00, 0x00]),        // unknown type => skipped
    ];
    let buf = build_clpi(*b"HDMV0300", &entries);
    let file = TsStreamClipFile::scan("00000.clpi", &buf).unwrap();

    assert_eq!(file.file_type, "HDMV0300");
    assert!(file.is_valid);
    assert_eq!(file.name, "00000.CLPI"); // upper-cased

    // Build the exact streams expected from the bytes above and compare the
    // whole map — MVC + the unknown type produce nothing, so neither appears.
    let mut expected: BTreeMap<u16, TsStream> = BTreeMap::new();

    let mut video = TsVideoStream::default();
    video.set_video_format(TsVideoFormat::Videoformat1080p); // 0x62 >> 4 == 6
    video.set_frame_rate(TsFrameRate::Framerate24); // 0x62 & 0x0F == 2
    video.aspect_ratio = TsAspectRatio::Aspect16_9; // 0x30 >> 4 == 3
    video.base.pid = Pid::new(0x1011);
    video.base.stream_type = TsStreamType::AvcVideo;
    expected.insert(0x1011, TsStream::Video(video));

    let mut audio = TsAudioStream {
        channel_layout: TsChannelLayout::ChannellayoutMulti, // 0x61 >> 4 == 6
        sample_rate: 48_000,                                 // 0x61 & 0x0F == 1 -> 48k
        ..TsAudioStream::default()
    };
    audio.base.set_language_code("deu");
    audio.base.pid = Pid::new(0x1100);
    audio.base.stream_type = TsStreamType::DtsHdMasterAudio;
    expected.insert(0x1100, TsStream::Audio(audio));

    let mut graphics = TsGraphicsStream::default();
    graphics.base.set_language_code("eng");
    graphics.base.pid = Pid::new(0x1200);
    graphics.base.stream_type = TsStreamType::PresentationGraphics;
    expected.insert(0x1200, TsStream::Graphics(graphics));

    let mut text = TsTextStream::default();
    text.base.set_language_code("fra");
    text.base.pid = Pid::new(0x1A00);
    text.base.stream_type = TsStreamType::Subtitle;
    expected.insert(0x1A00, TsStream::Text(text));

    assert_eq!(file.streams, expected);
}

#[test]
fn scan_accepts_all_four_magics() {
    for magic in [*b"HDMV0100", *b"HDMV0200", *b"HDMV0240", *b"HDMV0300"] {
        let buf = build_clpi(magic, &[(0x1011, 0x1B, [0x62, 0x30, 0, 0])]);
        let file = TsStreamClipFile::scan("x.clpi", &buf).unwrap();
        assert_eq!(file.streams.len(), 1);
    }
}

#[test]
fn scan_walks_every_program_sequence() {
    // Two program sequences, each declaring one stream. A single-program
    // parse would stop after the first and miss the second PID.
    let mut clip_data = vec![0_u8, 2]; // reserved + num_prog = 2
    clip_data.extend(program_header(1));
    clip_data.extend(entry_bytes(0x1011, 0x1B, [0x62, 0x30, 0, 0]));
    clip_data.extend(program_header(1));
    clip_data.extend(entry_bytes(0x1100, 0x86, [0x61, b'd', b'e', b'u']));
    let file = TsStreamClipFile::scan("p.clpi", &wrap_clip_data(&clip_data)).unwrap();
    let pids: Vec<u16> = file.streams.keys().copied().collect();
    assert_eq!(pids, vec![0x1011, 0x1100]);
    assert_eq!(
        file.streams.get(&0x1100).map(TsStream::stream_type),
        Some(TsStreamType::DtsHdMasterAudio)
    );
}

#[test]
fn a_pid_redeclared_by_a_later_program_overwrites_the_earlier_entry() {
    // The same PID in two program sequences with different coding: the
    // later sequence's declaration wins (the documented merge rule).
    let mut clip_data = vec![0_u8, 2];
    clip_data.extend(program_header(1));
    clip_data.extend(entry_bytes(0x1011, 0x1B, [0x62, 0x30, 0, 0])); // AVC
    clip_data.extend(program_header(1));
    clip_data.extend(entry_bytes(0x1011, 0x24, [0x62, 0x30, 0, 0])); // HEVC
    let file = TsStreamClipFile::scan("p.clpi", &wrap_clip_data(&clip_data)).unwrap();
    assert_eq!(file.streams.len(), 1);
    assert_eq!(
        file.streams.get(&0x1011).map(TsStream::stream_type),
        Some(TsStreamType::HevcVideo)
    );
}

#[test]
fn a_clip_with_zero_program_sequences_has_no_streams() {
    // num_prog == 0: nothing past the count is read — in particular the
    // byte at the old fixed stream-count offset (8) is junk here, not a
    // count, and the entry-shaped bytes after it must not parse.
    let mut clip_data = vec![0_u8, 0]; // reserved + num_prog = 0
    clip_data.extend_from_slice(&[0_u8; 6]);
    clip_data.push(1); // junk where the single-program layout put the count
    clip_data.push(0);
    clip_data.extend(entry_bytes(0x1011, 0x1B, [0x62, 0x30, 0, 0]));
    let file = TsStreamClipFile::scan("p.clpi", &wrap_clip_data(&clip_data)).unwrap();
    assert!(file.streams.is_empty());
}

#[test]
fn scan_rejects_unknown_file_type() {
    let buf = build_clpi(*b"XXXX0100", &[]);
    assert_eq!(
        TsStreamClipFile::scan("bad.clpi", &buf).unwrap_err().message(),
        "unknown file type: XXXX0100"
    );
}

#[test]
fn scan_rejects_truncated_inputs() {
    let eof = "unexpected end of input";
    // empty => magic read fails.
    assert_eq!(TsStreamClipFile::scan("e", &[]).unwrap_err().message(), eof);
    // valid magic but no ProgramInfo offset at 12.
    assert_eq!(TsStreamClipFile::scan("e", b"HDMV0100").unwrap_err().message(), eof);
    // ProgramInfo offset present but the block length read runs off the end.
    let mut buf = b"HDMV0100".to_vec();
    buf.extend_from_slice(&[0_u8; 4]); // 8..12
    buf.extend_from_slice(&100_u32.to_be_bytes()); // clip_index = 100 (out of range)
    assert_eq!(TsStreamClipFile::scan("e", &buf).unwrap_err().message(), eof);
    // clip block truncated: index/length point past the end of the file.
    let mut buf = b"HDMV0100".to_vec();
    buf.extend_from_slice(&[0_u8; 4]);
    buf.extend_from_slice(&16_u32.to_be_bytes()); // clip_index = 16
    buf.extend_from_slice(&100_u32.to_be_bytes()); // clip_length = 100, no data
    assert_eq!(TsStreamClipFile::scan("e", &buf).unwrap_err().message(), eof);
    // num_prog byte missing (clip block of one reserved byte only).
    let mut buf = b"HDMV0100".to_vec();
    buf.extend_from_slice(&[0_u8; 4]);
    buf.extend_from_slice(&16_u32.to_be_bytes());
    buf.extend_from_slice(&1_u32.to_be_bytes()); // clip_length = 1
    buf.push(0); // clip_data of 1 byte (no index 1)
    assert_eq!(TsStreamClipFile::scan("e", &buf).unwrap_err().message(), eof);
    // stream-count byte missing (program header cut before its count).
    let mut buf = b"HDMV0100".to_vec();
    buf.extend_from_slice(&[0_u8; 4]);
    buf.extend_from_slice(&16_u32.to_be_bytes());
    buf.extend_from_slice(&5_u32.to_be_bytes()); // clip_length = 5
    buf.extend_from_slice(&[0, 1, 0, 0, 0]); // num_prog = 1, header truncated
    assert_eq!(TsStreamClipFile::scan("e", &buf).unwrap_err().message(), eof);
    // stream count says 1 but the entry is missing.
    let mut buf = b"HDMV0100".to_vec();
    buf.extend_from_slice(&[0_u8; 4]);
    buf.extend_from_slice(&16_u32.to_be_bytes());
    buf.extend_from_slice(&10_u32.to_be_bytes()); // clip_length = 10 (header only)
    let mut header = vec![0_u8; 10];
    header.splice(1..2, [1_u8]); // num_prog = 1
    header.splice(8..9, [1_u8]); // stream count = 1, but no entry follows
    buf.extend_from_slice(&header);
    assert_eq!(TsStreamClipFile::scan("e", &buf).unwrap_err().message(), eof);
}

/// Wraps raw `clip_data` bytes in a valid CLPI envelope (magic + offsets),
/// `ProgramInfo` at offset 16.
fn wrap_clip_data(clip_data: &[u8]) -> Vec<u8> {
    let clip_index: u32 = 16;
    let mut buf = Vec::new();
    buf.extend_from_slice(b"HDMV0300");
    buf.extend_from_slice(&[0_u8; 4]);
    buf.extend_from_slice(&clip_index.to_be_bytes());
    buf.extend_from_slice(&u32::try_from(clip_data.len()).unwrap().to_be_bytes());
    buf.extend_from_slice(clip_data);
    buf
}

/// One-entry `clip_data` (one program, stream count 1) truncated to
/// `clip_data_len`, so a read at one specific field offset runs off the end.
fn one_entry_truncated(coding_type: u8, clip_data_len: usize) -> Vec<u8> {
    let mut full = vec![0_u8; 10];
    full.splice(1..2, [1_u8]); // num_prog = 1
    full.splice(8..9, [1_u8]); // stream count = 1
    full.extend_from_slice(&0x1011_u16.to_be_bytes()); // PID
    full.push(5); // coding-info length
    full.push(coding_type);
    full.extend_from_slice(&[0_u8; 8]); // coding-info payload
    full.truncate(clip_data_len);
    wrap_clip_data(&full)
}

#[test]
fn scan_rejects_truncation_within_each_stream_entry() {
    // Each (coding_type, clip_data_len) truncates just before a distinct
    // bounds-checked read, exercising every per-field EOF path.
    let cases = [
        (0x1B_u8, 10_usize), // PID read (u16 at 10)
        (0x1B, 12),          // coding-info length byte (at 12)
        (0x1B, 13),          // stream_coding_type byte (at 13)
        (0x1B, 14),          // video: format/frame-rate byte
        (0x1B, 15),          // video: aspect-ratio byte
        (0x81, 14),          // audio: channel/sample byte
        (0x81, 15),          // audio: 3-byte language
        (0x90, 14),          // graphics: 3-byte language
        (0x92, 14),          // subtitle: 3-byte language
    ];
    for (coding_type, clip_data_len) in cases {
        let buf = one_entry_truncated(coding_type, clip_data_len);
        assert_eq!(
            TsStreamClipFile::scan("t.clpi", &buf).unwrap_err().message(),
            "unexpected end of input",
            "type {coding_type:#04X} len {clip_data_len}"
        );
    }
}

#[test]
fn ts_stream_clip_model_defaults_and_clone() {
    // Times are ticks of a 90 kHz clock.
    let ticks = |seconds: f64| (seconds * 90_000.0) as i64;
    let clip = TsStreamClip {
        name: "00000.M2TS".to_owned(),
        time_in: ticks(600.0),
        time_out: ticks(608.125),
        length: ticks(8.125),
        chapters: vec![ticks(600.0)],
        ..TsStreamClip::default()
    };
    assert_eq!(clip.name, "00000.M2TS");
    assert_eq!(clip.angle_index, 0);
    assert_eq!(clip.length, ticks(8.125));
    assert_eq!(clip.length, 731_250);
    assert_eq!(clip.chapters, vec![ticks(600.0)]);
    assert_eq!(clip.clone(), clip);
    // Pure-default clip (all zero / empty).
    let d = TsStreamClip::default();
    assert_eq!(d.name, "");
    assert_eq!(d.file_size, 0);
    assert!(d.chapters.is_empty());
    assert!(format!("{d:?}").starts_with("TsStreamClip"));
}

/// A byte sequence that wanders over all values.
fn noise(seed: u32, len: usize) -> Vec<u8> {
    let mut state = seed.wrapping_mul(2_654_435_761).wrapping_add(1);
    let mut bytes = Vec::new();
    for _ in 0..len {
        state = state.wrapping_mul(1_664_525).wrapping_add(1_013_904_223);
        bytes.push((state >> 24) as u8);
    }
    bytes
}

#[test]
fn clip_scan_takes_arbitrary_input() {
    for seed in 0..200_u32 {
        let data = noise(seed, seed as usize * 3);
        assert!(TsStreamClipFile::scan("fuzz.clpi", &data).is_err());
        // The same bytes behind a valid header run the walk itself.
        let mut framed = b"HDMV0300".to_vec();
        framed.extend_from_slice(&[0, 0, 0, 0, 0, 0, 0, 16]);
        framed.extend_from_slice(&(data.len() as u32).to_be_bytes());
        framed.extend_from_slice(&data);
        drop(TsStreamClipFile::scan("fuzz.clpi", &framed));
    }
}

#[test]
fn clip_scan_round_trips_built_clips() {
    for step in 0..64_u16 {
        let pid = step.wrapping_mul(1031);
        let format = (step * 4) as u8;
        let aspect = (step * 7) as u8;
        let buf = build_clpi(*b"HDMV0300", &[(pid, 0x1B, [format, aspect, 0, 0])]);
        let file = TsStreamClipFile::scan("p.clpi", &buf).unwrap();
        let stream = file.streams.get(&pid).unwrap();
        assert_eq!(stream.pid(), Pid::new(pid));
        assert_eq!(stream.stream_type(), TsStreamType::AvcVideo);
    }
}

#[test]
fn a_hundredth_is_not_exceeded_by_itself() {
    assert!(!Ratio { num: 1, den: 100 }.exceeds_hundredth());
    assert!(Ratio { num: 2, den: 100 }.exceeds_hundredth());
    // A first clip is measured against nothing, which any length exceeds.
    assert!(Ratio { num: 1, den: 0 }.exceeds_hundredth());
    assert!(!Ratio { num: 0, den: 0 }.exceeds_hundredth());
}
