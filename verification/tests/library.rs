//! The parts that the scan is made of, and what holds across them.

use std::collections::BTreeMap;

use bdinfo_rs_core::bdrom::clpi::TsStreamClip;
use bdinfo_rs_core::bdrom::discovery::{
    has_kind, unit_shows_encryption, BdFileKind, DirEntry, FileEntry, ALIGNED_UNIT_BYTES,
    SOURCE_PACKET_BYTES,
};
use bdinfo_rs_core::bdrom::m2ts::TsStreamFile;
use bdinfo_rs_core::bdrom::measured::snapshot;
use bdinfo_rs_core::bdrom::merge::merge_stream;
use bdinfo_rs_core::bdrom::mpls::{total_length, TsPlaylistFile, TICKS_PER_SECOND};
use bdinfo_rs_core::bdrom::passes::{plan_stream_scan, Progress};
use bdinfo_rs_core::bdrom::present::TypeNames;
use bdinfo_rs_core::bdrom::rates::{rate, round_ratio};
use bdinfo_rs_core::bdrom::scan::{MemSource, NoCodecs, DATA_SIZE};
use bdinfo_rs_core::bdrom::sink::{settle_stream_scan, Sink, StreamScan};
use bdinfo_rs_core::bdrom::summarise::{build_clip_summaries, build_summary, playlist_has_loops};
use bdinfo_rs_core::bdrom::{build_coded_stream, language, offset};
use bdinfo_rs_core::error::{BdError, ScanStage};
use bdinfo_rs_core::maps::pids;
use bdinfo_rs_core::names::NameTable;
use bdinfo_rs_core::primitives::Pid;
use bdinfo_rs_core::stream::{
    convert_sample_rate, StreamKind, TsAudioStream, TsStream, TsStreamType, TsVideoStream,
};
use bdinfo_rs_core::text::{
    comes_before, eq_ignore_ascii_case, has_ending, same, to_ascii_uppercase,
};

/// A playlist called `name` that plays `clips` in full, one after the other.
fn playlist(name: &str, clips: &[&str]) -> TsPlaylistFile {
    TsPlaylistFile {
        file_type: "MPLS0300".to_owned(),
        name: name.to_owned(),
        mvc_base_view_r: false,
        chapters: Vec::new(),
        playlist_streams: BTreeMap::new(),
        streams: BTreeMap::new(),
        angle_streams: Vec::new(),
        stream_clips: clips
            .iter()
            .map(|&clip| TsStreamClip {
                name: clip.to_owned(),
                time_out: 1_000 * TICKS_PER_SECOND,
                length: 1_000 * TICKS_PER_SECOND,
                ..TsStreamClip::default()
            })
            .collect(),
        angle_count: 0,
    }
}

#[test]
fn text_is_compared_and_upper_cased_in_ascii_only() {
    assert_eq!(to_ascii_uppercase("00017.m2ts"), "00017.M2TS");
    assert_eq!(to_ascii_uppercase("straße é"), "STRAßE é");
    let once = to_ascii_uppercase("aZ{`@[");
    assert_eq!(to_ascii_uppercase(&once), once);
    assert!(eq_ignore_ascii_case("Bdmv", "bDMV"));
    assert!(!eq_ignore_ascii_case("É", "é"));
    assert!(!eq_ignore_ascii_case("a", "ab"));
    assert!(same("x", "x") && !same("x", "X"));
    assert!(has_ending("00000.MPLS", ".mpls"));
    assert!(!has_ending("mpls", ".mpls"));
}

#[test]
fn names_are_ordered_character_by_character() {
    assert!(comes_before("00000.mpls", "00001.mpls"));
    assert!(!comes_before("00001.mpls", "00000.mpls"));
    assert!(comes_before("0000", "00000"));
    assert!(comes_before("A", "a"));
    assert!(!comes_before("a", "a"));
    // As it is of `str`.
    let names = ["", "0", "00", "A", "Z", "a", "é", "\u{10000}", "a\u{0}"];
    for x in names {
        for y in names {
            assert_eq!(comes_before(x, y), x < y, "{x:?} {y:?}");
        }
    }
}

#[test]
fn every_failure_has_its_sentence() {
    let cases = [
        (BdError::UnexpectedEof, "unexpected end of input"),
        (BdError::UnknownFileType("X".to_owned()), "unknown file type: X"),
        (BdError::MissingClipFile("Y".to_owned()), "referenced missing clip file: Y"),
        (BdError::StructureNotFound, "unable to locate BD structure"),
        (BdError::ScanCancelled, "scan cancelled"),
        (
            BdError::MetadataTooLarge { file: "Z".to_owned(), limit: 7 },
            "metadata file too large: Z",
        ),
        (BdError::Io("gone".to_owned()), "io error: gone"),
    ];
    for (failure, sentence) in cases {
        assert_eq!(failure.message(), sentence);
        assert_eq!(failure.duplicate(), failure);
    }
}

#[test]
fn a_rounded_quotient_is_the_nearest_and_even_on_a_tie() {
    assert_eq!(round_ratio(5, 2), 2);
    assert_eq!(round_ratio(7, 2), 4);
    assert_eq!(round_ratio(-5, 2), -2);
    assert_eq!(round_ratio(-7, 2), -4);
    assert_eq!(round_ratio(8, 3), 3);
    assert_eq!(round_ratio(7, 3), 2);
    assert_eq!(round_ratio(i128::from(i64::MAX) * 4, 2), i64::MAX);
    for num in -40..40_i128 {
        for den in 1..9_i128 {
            let q = i128::from(round_ratio(num, den));
            assert!((2 * (num - q * den)).abs() <= den);
        }
    }
}

#[test]
fn a_rate_is_bits_over_seconds() {
    assert_eq!(rate(200, 2 * 90_000), 800);
    assert_eq!(rate(0, 90_000), 0);
    // 100 bytes over seven seconds are 114.28… bits per second.
    assert_eq!(rate(100, 7 * 90_000), 114);
}

#[test]
fn a_table_gives_back_what_was_last_put_in() {
    let mut table: NameTable<u32> = NameTable::new();
    assert_eq!(table.len(), 0);
    table.insert("A".to_owned(), 1);
    table.insert("B".to_owned(), 2);
    table.insert("A".to_owned(), 3);
    assert_eq!(table.len(), 2);
    assert_eq!(table.get("A"), Some(&3));
    assert_eq!(table.get("B"), Some(&2));
    assert_eq!(table.get("a"), None);
    assert!(table.contains_key("B") && !table.contains_key("C"));
    assert_eq!((table.name_at(0), *table.value_at(0)), ("A", 3));
}

#[test]
fn pids_come_in_order() {
    let map = BTreeMap::from([(0x1100, 'a'), (0x1011, 'b'), (0, 'c')]);
    assert_eq!(pids(&map), vec![0, 0x1011, 0x1100]);
}

#[test]
fn coding_types_have_their_kinds() {
    assert_eq!(TsStreamType::from_u8(0x1B), TsStreamType::AvcVideo);
    assert_eq!(TsStreamType::from_u8(0x99), TsStreamType::Unknown);
    assert_eq!(TsStreamType::from_u8(0x20).kind(), StreamKind::Video);
    assert_eq!(TsStreamType::from_u8(0x83).kind(), StreamKind::Audio);
    assert_eq!(TsStreamType::from_u8(0x91).kind(), StreamKind::Graphics);
    assert_eq!(TsStreamType::from_u8(0x92).kind(), StreamKind::Text);
    assert_eq!(TsStreamType::Unknown.kind(), StreamKind::Unknown);
    assert_eq!(convert_sample_rate(1), 48_000);
}

#[test]
fn a_coded_stream_needs_all_its_bytes() {
    let data = [0x62_u8, 0x30];
    let video = build_coded_stream(&data, 0, TsStreamType::AvcVideo, Some(1)).unwrap().unwrap();
    assert_eq!(video.stream_type(), TsStreamType::Unknown);
    assert!(matches!(video, TsStream::Video(ref v) if v.height == 1080));
    let eof = build_coded_stream(&data, 2, TsStreamType::AvcVideo, None).unwrap_err();
    assert_eq!(eof, BdError::UnexpectedEof);
    // The dependent view is a video stream like any other here; only an unknown type is none.
    let mvc = build_coded_stream(&data, 0, TsStreamType::MvcVideo, None).unwrap();
    assert!(matches!(mvc, Some(TsStream::Video(_))));
    assert_eq!(build_coded_stream(&data, 0, TsStreamType::Unknown, None).unwrap(), None);
    let code = language(b"xeng", 1).unwrap();
    assert_eq!((code.first, code.second, code.third), ('e', 'n', 'g'));
    assert_eq!(language(b"en", 0).unwrap_err(), BdError::UnexpectedEof);
    assert_eq!(offset(0x1234_5678), 0x1234_5678);
}

#[test]
fn a_merge_keeps_what_the_clip_declares() {
    let mut declared = TsVideoStream::default();
    declared.base.pid = Pid::new(0x1011);
    declared.base.stream_type = TsStreamType::AvcVideo;
    declared.base.set_language_code("eng");
    declared.height = 1080;
    let mut found = TsVideoStream::default();
    found.base.pid = Pid::new(0x1234);
    found.base.stream_type = TsStreamType::AvcVideo;
    found.height = 480;
    let mut stream = TsStream::Video(declared);
    merge_stream(&mut stream, &TsStream::Video(found));
    assert_eq!(stream.pid(), Pid::new(0x1011));
    assert!(matches!(stream, TsStream::Video(ref v) if v.height == 1080));
    assert!(stream.base().language_code.is_some());
}

#[test]
fn a_sink_ends_a_strict_scan_and_notes_for_a_resilient_one() {
    let failure = || BdError::Io("gone".to_owned());
    let mut strict = Sink::strict();
    assert!(!strict.is_resilient());
    assert_eq!(strict.absorb(ScanStage::Discovery, "x", 1, Ok(2)), Ok(2));
    assert_eq!(strict.absorb(ScanStage::Discovery, "x", 1, Err(failure())), Err(failure()));
    assert!(strict.into_errors().is_empty());

    let mut resilient = Sink::resilient();
    assert!(resilient.is_resilient());
    assert_eq!(resilient.absorb(ScanStage::Discovery, "x", 1, Err(failure())), Ok(1));
    // A backup that is in order stands in, and the failure is noted all the same.
    let backed = resilient.absorb_with_backup(
        ScanStage::ClipInfo,
        "y",
        1,
        Err(failure()),
        Some(Ok(5)),
    );
    assert_eq!(backed, Ok(5));
    let broken = resilient.absorb_with_backup(
        ScanStage::ClipInfo,
        "z",
        1,
        Err(failure()),
        Some(Err(BdError::UnexpectedEof)),
    );
    assert_eq!(broken, Ok(1));
    let notes = resilient.into_errors();
    let files: Vec<&str> = notes.iter().map(|n| n.file.as_str()).collect();
    assert_eq!(files, ["x", "y", "z"]);
    assert!(notes.iter().all(|n| n.reason == failure()));
}

#[test]
fn a_stop_is_settled_without_a_note() {
    let mut sink = Sink::resilient();
    let scan = StreamScan::Partial(TsStreamFile::new("a.m2ts"), BdError::ScanCancelled);
    let settled = settle_stream_scan(&mut sink, "a.m2ts", true, scan);
    assert_eq!(settled.err(), Some(BdError::ScanCancelled));
    let scan = StreamScan::Nothing(BdError::UnexpectedEof);
    assert!(settle_stream_scan(&mut sink, "b.m2ts", true, scan).unwrap().is_none());
    let scan = StreamScan::Complete(TsStreamFile::new("c.m2ts"));
    let file = settle_stream_scan(&mut sink, "c.m2ts", true, scan).unwrap().unwrap();
    assert_eq!(file.name, "C.M2TS");
    assert_eq!(sink.into_errors().len(), 1);
}

#[test]
fn files_are_told_apart_by_their_endings() {
    assert!(has_kind("00000.M2TS", BdFileKind::Stream));
    assert!(has_kind("00000.fmts", BdFileKind::Stream));
    assert!(has_kind("00000.ssif", BdFileKind::Interleaved));
    assert!(has_kind("00000.Clpi", BdFileKind::ClipInfo));
    assert!(!has_kind("00000.mpls", BdFileKind::Stream));
}

#[test]
fn a_clear_unit_is_no_sign_of_encryption() {
    let mut bytes = vec![0_u8; 2 * ALIGNED_UNIT_BYTES];
    for packet in bytes.chunks_exact_mut(SOURCE_PACKET_BYTES) {
        packet[4] = 0x47;
    }
    assert!(!unit_shows_encryption(&bytes, 0));
    assert!(!unit_shows_encryption(&bytes, ALIGNED_UNIT_BYTES));
}

/// A directory of files of the given sizes.
fn dir(name: &str, files: &[(&str, u64)]) -> DirEntry {
    DirEntry {
        name: name.to_owned(),
        files: Ok(files
            .iter()
            .map(|&(name, length)| FileEntry {
                name: name.to_owned(),
                length,
                content: Ok(Vec::new()),
            })
            .collect()),
        dirs: Ok(Vec::new()),
    }
}

#[test]
fn a_plan_reads_each_interleaved_file_once() {
    let stream = dir(
        "STREAM",
        &[("00000.m2ts", 10), ("note.txt", 1), ("00000.fmts", 20), ("00001.M2TS", 30)],
    );
    let ssif = dir("SSIF", &[("00000.SSIF", 100), ("00002.ssif", 200)]);
    let mut sink = Sink::strict();
    let plan = plan_stream_scan(Some(&stream), Some(&ssif), None, &mut sink).unwrap();
    let jobs: Vec<(&str, usize, Option<usize>, u64)> = plan
        .jobs
        .iter()
        .map(|j| (j.name.as_str(), j.file, j.interleaved, j.source_size))
        .collect();
    assert_eq!(
        jobs,
        [
            ("00000.M2TS", 0, Some(0), 100),
            ("00000.FMTS", 2, None, 20),
            ("00001.M2TS", 3, None, 30),
        ]
    );
    let selection = vec!["00001.M2TS".to_owned()];
    let plan = plan_stream_scan(Some(&stream), Some(&ssif), Some(&selection), &mut sink).unwrap();
    assert_eq!(plan.jobs.len(), 1);
    assert!(plan_stream_scan(None, Some(&ssif), None, &mut sink).unwrap().jobs.is_empty());
}

#[test]
fn a_pass_ends_at_its_total() {
    let mut progress = Progress::new(130);
    for (name, size, read) in [("A", 100, 40), ("B", 30, 30)] {
        let target = progress.target(size);
        progress.advance(name, read);
        progress.finish_file(name, target);
    }
    assert_eq!(progress.heartbeat("B").done, 130);
}

#[test]
fn a_scan_touches_the_playlists_that_play_its_file() {
    // One packet of a PAT that leads nowhere: the file counts its bytes, no playlist gets any.
    let mut bytes = vec![0, 0, 0, 0, 0x47, 0x40, 0x00, 0x10];
    bytes.resize(192, 0xFF);
    let mut playlists = vec![playlist("A", &["00000.M2TS"]), playlist("B", &["00001.M2TS"])];
    let before = playlist("B", &["00001.M2TS"]);
    let mut file = TsStreamFile::new("00000.m2ts");
    let mut reader = MemSource::new(bytes, DATA_SIZE, None);
    file.scan(&NoCodecs {}, &mut reader, &mut playlists, true).unwrap();
    assert_eq!(file.size, 192);
    assert_eq!(playlists[1], before);
}

#[test]
fn a_snapshot_holds_the_bytes_of_the_summary() {
    let mut p = playlist("A.MPLS", &["00000.M2TS", "00001.M2TS"]);
    p.stream_clips[0].packet_count = 7;
    p.stream_clips[1].packet_count = 11;
    let playlists = vec![p];
    let taken = snapshot("00001.M2TS", &playlists);
    let none: NameTable<u64> = NameTable::new();
    let measured: NameTable<TsStreamFile> = NameTable::new();
    let rows = build_clip_summaries(&TypeNames {}, &playlists[0], &none, &none, &measured);
    let sizes: Vec<u64> = rows.iter().map(|r| r.packet_size()).collect();
    let shown: Vec<u64> = taken.playlists[0].clips.iter().map(|c| c.measured_bytes).collect();
    assert_eq!(sizes, shown);
    assert_eq!(taken.playlists[0].measured_bytes, sizes.iter().sum::<u64>());
}

#[test]
fn a_summary_needs_clip_information_for_its_main_clips() {
    let p = playlist("A.MPLS", &["00000.M2TS", "00000.M2TS"]);
    assert!(playlist_has_loops(&p));
    assert_eq!(total_length(&p.stream_clips), 2_000 * i128::from(TICKS_PER_SECOND));
    let failure = build_summary(
        &TypeNames {},
        &p,
        &NameTable::new(),
        &NameTable::new(),
        &NameTable::new(),
        &NameTable::new(),
        &NameTable::new(),
    )
    .unwrap_err();
    assert_eq!(failure, BdError::MissingClipFile("00000.CLPI".to_owned()));
    // Without clips there is nothing to miss.
    let (summary, is_50hz) = build_summary(
        &TypeNames {},
        &playlist("B.MPLS", &[]),
        &NameTable::new(),
        &NameTable::new(),
        &NameTable::new(),
        &NameTable::new(),
        &NameTable::new(),
    )
    .unwrap();
    assert!(!is_50hz && summary.streams.is_empty() && summary.total_length == 0);
}

#[test]
fn a_copy_of_a_stream_is_the_stream_and_a_cleared_one_measures_nothing() {
    let mut audio = TsAudioStream::default();
    audio.base.stream_type = TsStreamType::Ac3TrueHdAudio;
    audio.base.payload_bytes = 9;
    audio.base.packet_count = 8;
    audio.base.bit_rate = 7;
    audio.ext_data = Some("x".to_owned());
    audio.core_stream = Some(Box::new(TsAudioStream { bit_depth: 24, ..TsAudioStream::default() }));
    let stream = TsStream::Audio(audio);
    assert_eq!(stream.duplicate(), stream);
    assert_eq!(stream.clone(), stream);
    let cleared = stream.ts_clone();
    assert_eq!(cleared.base().payload_bytes, 0);
    assert_eq!(cleared.base().packet_count, 0);
    assert_eq!(cleared.base().bit_rate, 7);
    let mut back = stream.duplicate();
    back.set_base(*stream.base());
    assert_eq!(back, stream);
}
