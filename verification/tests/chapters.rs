//! Chapter statistics.

use bdinfo_rs_core::bdrom::chapters::{
    seconds_to_ticks, walk_chapters, ChapterClip, ChapterSummary, Rate, Share,
};
use bdinfo_rs_core::bdrom::m2ts::TsStreamDiagnostics;

/// Seconds in ticks of the 90 kHz clock.
fn ticks(seconds: f64) -> i64 {
    (seconds * 90_000.0) as i64
}

/// Ticks in seconds.
fn seconds(ticks: impl Into<i128>) -> f64 {
    let wide: i128 = ticks.into();
    wide as f64 / 90_000.0
}

/// A rate in bits per second.
fn bits(rate: Rate) -> f64 {
    rate.bytes as f64 * 8.0 * 90_000.0 / rate.ticks as f64
}

/// An average frame in bytes.
fn average(share: Share) -> f64 {
    share.bytes as f64 / share.frames as f64
}

/// Walks chapters given in seconds.
fn walk(chapters: &[f64], length: f64, clips: &[ChapterClip<'_>]) -> Vec<ChapterSummary> {
    let marks: Vec<i64> = chapters.iter().map(|&c| ticks(c)).collect();
    walk_chapters(&marks, i128::from(ticks(length)), clips)
}


/// One diagnostics entry: `bytes` of payload at `marker` seconds after an
/// `interval`-second gap, frame-`tagged` or not.
fn d(bytes: u64, marker: f64, interval: f64, tagged: bool) -> TsStreamDiagnostics {
    TsStreamDiagnostics {
        bytes,
        packets: 1,
        marker: ticks(marker),
        interval: ticks(interval),
        tag: if tagged { Some("I".to_owned()) } else { None },
    }
}

/// A main-angle clip over `diags` starting at `time_in` (clip time) /
/// `relative_time_in` (playlist time).
fn clip(time_in: f64, relative_time_in: f64, diags: &[TsStreamDiagnostics]) -> ChapterClip<'_> {
    ChapterClip {
        angle_index: 0,
        time_in: ticks(time_in),
        relative_time_in: ticks(relative_time_in),
        diagnostics: Some(diags),
    }
}

#[test]
fn ticks_truncate_toward_zero_and_saturate() {
    assert_eq!(seconds_to_ticks(ticks(1.5)), 15_000_000);
    // Truncation, not rounding: one tick of the clock is 111.1 units, two are 222.2.
    assert_eq!(seconds_to_ticks(1), 111);
    assert_eq!(seconds_to_ticks(5), 555);
    assert_eq!(seconds_to_ticks(8), 888);
    assert_eq!(seconds_to_ticks(-8), -888);
    assert_eq!(seconds_to_ticks(ticks(-1.5)), -15_000_000);
    assert_eq!(seconds_to_ticks(ticks(0.0)), 0);
    assert_eq!(seconds_to_ticks(i64::MAX), i64::MAX);
    assert_eq!(seconds_to_ticks(i64::MIN), i64::MIN);
}

#[test]
fn a_single_chapter_aggregates_rates_frames_and_window_peaks() {
    // Three frames at 1 s spacing: 1000 B (tagged), 2000 B (tagged),
    // 500 B (untagged).
    let diags = [d(1000, 1.0, 1.0, true), d(2000, 2.0, 1.0, true), d(500, 3.0, 1.0, false)];
    let rows = walk(&[0.0], 4.0, &[clip(0.0, 0.0, &diags)]);
    assert_eq!(rows.len(), 1);
    let r = rows.first().unwrap();
    assert_eq!(seconds(r.time_in).to_bits(), 0.0_f64.to_bits());
    assert_eq!(seconds(r.length).to_bits(), 4.0_f64.to_bits());
    // 3500 bytes * 8 over 4 s.
    assert_eq!(bits(r.avg_rate).to_bits(), 7000.0_f64.to_bits());
    // Two tagged frames: 28000 bits / 2 / 8.
    assert_eq!(average(r.avg_frame_size).to_bits(), 1750.0_f64.to_bits());
    assert_eq!((r.max_frame_size as f64).to_bits(), 2000.0_f64.to_bits());
    assert_eq!(seconds(r.max_frame_time).to_bits(), 2.0_f64.to_bits());
    // 1-second window: at frame 2 the sum (2.0 s) first exceeds 1 s, but
    // its start (position − sum = 0) is not strictly positive, so the
    // first recorded peak is frame 3's window: (16000+4000)/2 bits/s
    // starting at 3.0 − 2.0 = 1.0 s.
    assert_eq!(bits(r.max_1sec_rate).to_bits(), 10_000.0_f64.to_bits());
    assert_eq!(seconds(r.max_1sec_time).to_bits(), 1.0_f64.to_bits());
    // The interval sum never exceeds 5/10 s: those peaks stay zero.
    assert_eq!(bits(r.max_5sec_rate).to_bits(), 0.0_f64.to_bits());
    assert_eq!(seconds(r.max_5sec_time).to_bits(), 0.0_f64.to_bits());
    assert_eq!(bits(r.max_10sec_rate).to_bits(), 0.0_f64.to_bits());
    assert_eq!(seconds(r.max_10sec_time).to_bits(), 0.0_f64.to_bits());
}

#[test]
fn an_equal_window_rate_keeps_the_first_peak() {
    // Constant 1000 B frames at 0.5 s intervals from 1.0 s. At frame 2 the
    // 1-second sum is exactly 1.0 — not strictly above the span, so no
    // drain. Frames 3 and 4 both produce a 16000 bits/s window; the equal
    // later rate must NOT displace the first peak's location.
    let diags = [
        d(1000, 1.0, 0.5, true),
        d(1000, 1.5, 0.5, true),
        d(1000, 2.0, 0.5, true),
        d(1000, 2.5, 0.5, true),
    ];
    let rows = walk(&[0.0], 3.0, &[clip(0.0, 0.0, &diags)]);
    let r = rows.first().unwrap();
    assert_eq!(bits(r.max_1sec_rate).to_bits(), 16_000.0_f64.to_bits());
    assert_eq!(seconds(r.max_1sec_time).to_bits(), 0.5_f64.to_bits());
}

#[test]
fn chapter_boundaries_reset_the_accumulators_but_not_the_position() {
    // Two chapters over one clip; the second chapter's stats must not see
    // the first's frames, windows, or peaks.
    let diags = [
        d(1000, 1.0, 1.0, true),
        d(4000, 2.0, 1.0, true),
        d(1000, 3.0, 1.0, true),
        d(1000, 4.0, 1.0, true),
    ];
    let rows = walk(&[0.0, 2.0], 4.0, &[clip(0.0, 0.0, &diags)]);
    assert_eq!(rows.len(), 2);
    let (r0, r1) = (rows.first().unwrap(), rows.get(1).unwrap());
    // Chapter 1 takes frames 1-2 (the frame landing exactly on the
    // boundary closes it): 5000 B * 8 / 2 s.
    assert_eq!(bits(r0.avg_rate).to_bits(), 20_000.0_f64.to_bits());
    assert_eq!((r0.max_frame_size as f64).to_bits(), 4000.0_f64.to_bits());
    assert_eq!(seconds(r0.max_frame_time).to_bits(), 2.0_f64.to_bits());
    assert_eq!(seconds(r0.length).to_bits(), 2.0_f64.to_bits());
    // Chapter 2 takes frames 3-4 only: 2000 B * 8 / 2 s.
    assert_eq!(seconds(r1.time_in).to_bits(), 2.0_f64.to_bits());
    assert_eq!(bits(r1.avg_rate).to_bits(), 8000.0_f64.to_bits());
    assert_eq!(average(r1.avg_frame_size).to_bits(), 1000.0_f64.to_bits());
    assert_eq!((r1.max_frame_size as f64).to_bits(), 1000.0_f64.to_bits());
    assert_eq!(seconds(r1.max_frame_time).to_bits(), 3.0_f64.to_bits());
    // Its 1-second window starts fresh: frame 4 closes a 2-second window
    // (16000 bits / 2 s) starting at 4.0 − 2.0 = 2.0 s.
    assert_eq!(bits(r1.max_1sec_rate).to_bits(), 8000.0_f64.to_bits());
    assert_eq!(seconds(r1.max_1sec_time).to_bits(), 2.0_f64.to_bits());
}

#[test]
fn frames_before_the_clip_in_time_are_consumed_but_ignored() {
    // The 7000-byte frame at 5.0 s predates the clip's 10.0 s in-time and
    // contributes nothing; the frame exactly AT the in-time counts (the
    // skip is strictly-before, and the distinct sizes make keeping the
    // wrong one observable).
    let diags = [d(7000, 5.0, 1.0, true), d(1000, 10.0, 1.0, true), d(1000, 11.0, 1.0, true)];
    let rows = walk(&[0.0], 2.0, &[clip(10.0, 0.0, &diags)]);
    let r = rows.first().unwrap();
    // 2000 bytes * 8 over 2 s — 8000, not the 32000 the skipped frame
    // would add or the 4000 of dropping the at-in-time frame.
    assert_eq!(bits(r.avg_rate).to_bits(), 8000.0_f64.to_bits());
    assert_eq!(average(r.avg_frame_size).to_bits(), 1000.0_f64.to_bits());
}

#[test]
fn the_playlist_position_offsets_the_clip_relative_start() {
    // A second clip starting at playlist time 2.0 whose own timeline
    // begins at 100.0: its frame at marker 101.0 lands at playlist
    // position 101 − 100 + 2 = 3.0.
    let first = [d(1000, 1.0, 1.0, true)];
    let second = [d(4000, 101.0, 1.0, true)];
    let clips = [clip(0.0, 0.0, &first), clip(100.0, 2.0, &second)];
    let rows = walk(&[0.0], 4.0, &clips);
    let r = rows.first().unwrap();
    assert_eq!((r.max_frame_size as f64).to_bits(), 4000.0_f64.to_bits());
    assert_eq!(seconds(r.max_frame_time).to_bits(), 3.0_f64.to_bits());
}

#[test]
fn a_zero_length_chapter_keeps_a_zero_average_rate() {
    // Two marks at the same time: the first chapter is zero-length and its
    // average rate must stay 0, not divide by zero.
    let diags = [d(1000, 1.0, 1.0, true)];
    let rows = walk(&[0.0, 0.0], 2.0, &[clip(0.0, 0.0, &diags)]);
    assert_eq!(rows.len(), 2);
    let r0 = rows.first().unwrap();
    assert_eq!(seconds(r0.length).to_bits(), 0.0_f64.to_bits());
    assert_eq!(bits(r0.avg_rate).to_bits(), 0.0_f64.to_bits());
    // The second chapter still measures the frame.
    assert_eq!(bits(rows.get(1).unwrap().avg_rate).to_bits(), 4000.0_f64.to_bits());
}

#[test]
fn angle_clips_and_undemuxed_clips_are_skipped_whole() {
    let angle_diags = [d(9000, 0.5, 0.5, true)];
    let main_diags = [d(1000, 0.5, 0.5, true), d(1000, 1.5, 1.0, true)];
    let clips = [
        ChapterClip {
            angle_index: 1,
            time_in: 0,
            relative_time_in: 0,
            diagnostics: Some(&angle_diags),
        },
        ChapterClip { angle_index: 0, time_in: 0, relative_time_in: 0, diagnostics: None },
        clip(0.0, 0.0, &main_diags),
    ];
    let rows = walk(&[0.0], 2.0, &clips);
    assert_eq!(rows.len(), 1);
    // Only the third clip's 2000 bytes count: 16000 bits / 2 s.
    assert_eq!(bits(rows.first().unwrap().avg_rate).to_bits(), 8000.0_f64.to_bits());
}

#[test]
fn no_chapters_yield_no_rows_and_no_clips_yield_zero_rows() {
    assert_eq!(walk(&[], 10.0, &[clip(0.0, 0.0, &[])]), Vec::new());
    let rows = walk(&[0.0, 4.0], 10.0, &[]);
    assert_eq!(
        rows,
        vec![
            ChapterSummary { time_in: 0, length: 360_000, ..ChapterSummary::default() },
            ChapterSummary { time_in: 360_000, length: 540_000, ..ChapterSummary::default() },
        ]
    );
}

#[test]
fn every_chapter_mark_gives_one_row() {
    let mut state: u64 = 1;
    let mut next = || {
        state = state.wrapping_mul(6_364_136_223_846_793_005).wrapping_add(1_442_695_040_888_963_407);
        state
    };
    for round in 0..50_usize {
        let marks: Vec<i64> = (0..round % 6).map(|_| next() as i64).collect();
        let diags: Vec<TsStreamDiagnostics> = (0..round % 8)
            .map(|_| TsStreamDiagnostics {
                bytes: next(),
                packets: 1,
                marker: next() as i64,
                interval: next() as i64,
                tag: if next() % 2 == 0 { Some("I".to_owned()) } else { None },
            })
            .collect();
        let clips: Vec<ChapterClip<'_>> = (0..round % 4)
            .map(|k| ChapterClip {
                angle_index: (next() % 2) as i32,
                time_in: next() as i64,
                relative_time_in: next() as i64,
                diagnostics: if k % 3 == 2 { None } else { Some(&diags) },
            })
            .collect();
        assert_eq!(walk_chapters(&marks, i128::from(next()), &clips).len(), marks.len());
    }
}

#[test]
fn only_the_frames_that_count_make_a_difference() {
    let diags = [d(1000, 1.0, 1.0, true), d(2000, 2.0, 1.0, true), d(500, 3.0, 1.0, false)];
    let plain = walk(&[0.0, 2.0], 4.0, &[clip(0.5, 0.0, &diags)]);
    // Frames before the in-time.
    let early = [
        d(9000, 0.1, 1.0, true),
        d(1000, 1.0, 1.0, true),
        d(8000, 0.4, 1.0, true),
        d(2000, 2.0, 1.0, true),
        d(500, 3.0, 1.0, false),
        d(7000, 0.0, 1.0, true),
    ];
    assert_eq!(walk(&[0.0, 2.0], 4.0, &[clip(0.5, 0.0, &early)]), plain);
    // Clips of another angle, and clips that were not measured.
    let angle = ChapterClip { angle_index: 1, ..clip(0.0, 0.0, &diags) };
    let unmeasured = ChapterClip { diagnostics: None, ..clip(0.0, 0.0, &diags) };
    assert_eq!(
        walk(&[0.0, 2.0], 4.0, &[angle, unmeasured, clip(0.5, 0.0, &diags), angle]),
        plain
    );
}
