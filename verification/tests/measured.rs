//! Measurement snapshots.

use std::collections::BTreeMap;

use bdinfo_rs_core::bdrom::clpi::TsStreamClip;
use bdinfo_rs_core::bdrom::measured::{packet_size, snapshot, MeasuredClip, MeasuredStream};
use bdinfo_rs_core::bdrom::mpls::TsPlaylistFile;
use bdinfo_rs_core::primitives::Pid;
use bdinfo_rs_core::stream::{TsStream, TsStreamType, TsVideoStream};

/// A playlist named `name` sequencing `clips` as `(file, angle_index,
/// packet_count)` triples, with no resolved streams.
fn playlist(name: &str, clips: &[(&str, i32, u64)]) -> TsPlaylistFile {
    let mut playlist = TsPlaylistFile {
        file_type: "MPLS0300".to_owned(),
        name: name.to_owned(),
        mvc_base_view_r: false,
        chapters: Vec::new(),
        playlist_streams: BTreeMap::new(),
        streams: BTreeMap::new(),
        angle_streams: Vec::new(),
        stream_clips: Vec::new(),
        angle_count: 0,
    };
    for &(file, angle_index, packet_count) in clips {
        playlist.stream_clips.push(TsStreamClip {
            name: file.to_owned(),
            angle_index,
            packet_count,
            ..TsStreamClip::default()
        });
    }
    playlist
}

/// A video stream carrying `bit_rate` and `active_bit_rate`.
fn video(bit_rate: i64, active_bit_rate: i64) -> TsStream {
    let mut stream = TsVideoStream::default();
    stream.base.stream_type = TsStreamType::AvcVideo;
    stream.base.bit_rate = bit_rate;
    stream.base.active_bit_rate = active_bit_rate;
    TsStream::Video(stream)
}

#[test]
fn a_snapshot_covers_only_the_playlists_that_play_the_file() {
    let playlists = vec![
        playlist("00000.MPLS", &[("00011.M2TS", 0, 10)]),
        playlist("00001.MPLS", &[("00022.M2TS", 0, 20)]),
        playlist("00002.MPLS", &[("00033.M2TS", 0, 30), ("00011.M2TS", 0, 40)]),
    ];
    let taken = snapshot("00011.M2TS", &playlists);
    assert_eq!(taken.file, "00011.M2TS");
    let named: Vec<&str> = taken.playlists.iter().map(|p| p.name.as_str()).collect();
    assert_eq!(named, ["00000.MPLS", "00002.MPLS"], "the playlist between them plays no 00011");
    // A file no playlist sequences yields a snapshot with nothing in it.
    assert!(snapshot("00099.M2TS", &playlists).playlists.is_empty());
}

#[test]
fn a_playlists_bytes_are_its_clips_bytes_over_every_angle() {
    // Two play items of the main angle plus one angle clip: the playlist
    // total counts all three, and each row carries its own count.
    let playlists =
        vec![playlist("00000.MPLS", &[("00011.M2TS", 0, 10), ("00011.M2TS", 1, 3)])];
    let taken = snapshot("00011.M2TS", &playlists);
    let first = taken.playlists.first().expect("the playlist plays the file");
    assert_eq!(first.measured_bytes, packet_size(13));
    assert_eq!(
        first.clips,
        [
            MeasuredClip {
                name: "00011.M2TS".to_owned(),
                angle_index: 0,
                measured_bytes: packet_size(10),
            },
            MeasuredClip {
                name: "00011.M2TS".to_owned(),
                angle_index: 1,
                measured_bytes: packet_size(3),
            },
        ]
    );
}

#[test]
fn the_clip_rows_cover_the_whole_playlist_not_just_the_scanned_file() {
    // The pass measures one file at a time, so the entries for the clips
    // it is not on carry whatever earlier files left them at.
    let playlists =
        vec![playlist("00000.MPLS", &[("00033.M2TS", 0, 5), ("00011.M2TS", 0, 10)])];
    let taken = snapshot("00011.M2TS", &playlists);
    let first = taken.playlists.first().expect("the playlist plays the file");
    let rows: Vec<(&str, u64)> =
        first.clips.iter().map(|clip| (clip.name.as_str(), clip.measured_bytes)).collect();
    assert_eq!(rows, [("00033.M2TS", packet_size(5)), ("00011.M2TS", packet_size(10))]);
    assert_eq!(first.measured_bytes, packet_size(15));
}

#[test]
fn every_presented_stream_reports_its_rates_under_its_own_angle() {
    let mut playlists = vec![playlist("00000.MPLS", &[("00011.M2TS", 0, 10)])];
    let first = playlists.first_mut().expect("one playlist");
    first.streams = BTreeMap::from([(0x1011, video(7, 8)), (0x1100, video(5, 6))]);
    first.angle_streams = vec![BTreeMap::from([(0x1011, video(3, 4))])];
    let taken = snapshot("00011.M2TS", &playlists);
    let measured = taken.playlists.first().expect("the playlist plays the file");
    assert_eq!(
        measured.streams,
        [
            MeasuredStream {
                pid: Pid::new(0x1011),
                angle_index: 0,
                bitrate: 7,
                active_bitrate: 8,
            },
            MeasuredStream {
                pid: Pid::new(0x1100),
                angle_index: 0,
                bitrate: 5,
                active_bitrate: 6,
            },
            MeasuredStream {
                pid: Pid::new(0x1011),
                angle_index: 1,
                bitrate: 3,
                active_bitrate: 4,
            },
        ]
    );
}

#[test]
fn an_unresolved_playlist_reports_no_streams() {
    // A playlist the scan found no reference clip for keeps empty stream
    // maps, so its snapshot carries clips and no rates.
    let playlists = vec![playlist("00000.MPLS", &[("00011.M2TS", 0, 10)])];
    let taken = snapshot("00011.M2TS", &playlists);
    let first = taken.playlists.first().expect("the playlist plays the file");
    assert!(first.streams.is_empty());
    assert_eq!(first.clips.len(), 1);
}

#[test]
fn a_packet_count_converts_at_192_bytes_a_packet() {
    assert_eq!(packet_size(0), 0);
    assert_eq!(packet_size(1), 192);
    assert_eq!(packet_size(1000), 192_000);
}
