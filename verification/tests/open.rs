//! Whole discs, opened and scanned.

use std::cell::{Cell, RefCell};
use std::collections::BTreeMap;
use std::rc::Rc;

use bdinfo_rs_core::bdrom::chapters::Rate;
use bdinfo_rs_core::bdrom::disc::{
    BdRom, PlaylistSummary, ScanMode, ScanOptions, ScanProgress, ScanReport,
};
use bdinfo_rs_core::bdrom::discovery::{
    detect_aacs_encryption, directory_size, has_aacs_key_file, read_file, read_file_capped,
    stream_content_encrypted, unit_shows_encryption, walked_disc_root, BdmvDir, DirEntry,
    FileEntry, ALIGNED_UNIT_BYTES, MAX_METADATA_BYTES, SOURCE_PACKET_BYTES,
};
use bdinfo_rs_core::bdrom::m2ts::{AccessUnitScan, TsStreamFile};
use bdinfo_rs_core::bdrom::measure::{scan_stream_files, HeldFiles, StreamStore};
use bdinfo_rs_core::bdrom::mpls::TsPlaylistFile;
use bdinfo_rs_core::bdrom::open::{backup_subdir_files, collect_backups};
use bdinfo_rs_core::bdrom::passes::{Indifferent, Progress, ScanObserver};
use bdinfo_rs_core::bdrom::present::{StreamText, TypeNames};
use bdinfo_rs_core::bdrom::scan::{AccessUnits, ByteSource, MemSource, NoCodecs, DATA_SIZE};
use bdinfo_rs_core::bdrom::sink::Sink;
use bdinfo_rs_core::error::{BdError, ScanStage};
use bdinfo_rs_core::primitives::Pid;
use bdinfo_rs_core::stream::{TsStream, TsStreamType};

/// Ticks of the 90 kHz clock in seconds.
fn seconds(ticks: impl Into<i128>) -> f64 {
    let wide: i128 = ticks.into();
    wide as f64 / 90_000.0
}

/// A rate in bits per second.
fn bits(rate: Rate) -> f64 {
    rate.bytes as f64 * 8.0 * 90_000.0 / rate.ticks as f64
}

/// One per-program 8-byte header: `spn_program_sequence_start` +
/// `program_map_pid` + the stream count + `num_groups`. The fields around
/// the count are non-zero filler, so an offset slip lands on visibly
/// different bytes.
fn program_header(stream_count: usize) -> Vec<u8> {
    let mut header = 0x0102_0304_u32.to_be_bytes().to_vec(); // spn start
    header.extend_from_slice(&0x0100_u16.to_be_bytes()); // program_map_pid
    header.push(u8::try_from(stream_count).unwrap());
    header.push(1); // num_groups
    header
}

/// One stream entry: `[PID:2][len=5][coding_type][payload:4]`, where
/// `payload` is the four bytes after the coding-type byte.
fn entry_bytes(pid: u16, coding_type: u8, payload: [u8; 4]) -> Vec<u8> {
    let mut entry = pid.to_be_bytes().to_vec();
    entry.push(5); // coding-info length (coding_type + 4 payload bytes)
    entry.push(coding_type);
    entry.extend_from_slice(&payload);
    entry
}

/// Builds a minimal valid `*.clpi`: header → `ProgramInfo` at offset 16 →
/// one program sequence carrying `entries`.
fn build_clpi(magic: [u8; 8], entries: &[(u16, u8, [u8; 4])]) -> Vec<u8> {
    let mut clip_data = vec![0_u8]; // index 0: reserved byte
    clip_data.push(1); // index 1: num_prog
    clip_data.extend(program_header(entries.len())); // 2..10; entries at 10
    for &(pid, coding_type, payload) in entries {
        clip_data.extend(entry_bytes(pid, coding_type, payload));
    }
    let mut buf = Vec::new();
    buf.extend_from_slice(&magic); // 0..8
    buf.extend_from_slice(&[0_u8; 4]); // 8..12 (SequenceInfo addr, unused)
    buf.extend_from_slice(&16_u32.to_be_bytes()); // 12..16 ProgramInfo addr
    buf.extend_from_slice(&u32::try_from(clip_data.len()).unwrap().to_be_bytes()); // 16..20 length
    buf.extend_from_slice(&clip_data); // 20..
    buf
}

/// One Stream-Number-table entry: a 9-byte header block (PID placed per
/// `header_type`) + the stream length (5) + the coding type + 4 coding bytes.
fn pl_stream(header_type: u8, pid: u16, stream_type: u8, coding: [u8; 4]) -> Vec<u8> {
    let [ph, pl] = pid.to_be_bytes();
    let mut header = vec![header_type];
    match header_type {
        1 => header.extend_from_slice(&[ph, pl]),
        2 => header.extend_from_slice(&[0, 0, ph, pl]),
        // Type 4 (DV enhancement layer) shares type 3's subpath_id + PID shape.
        3 | 4 => header.extend_from_slice(&[0, ph, pl]),
        _ => {}
    }
    header.resize(9, 0);
    let mut entry = vec![9]; // header length
    entry.extend_from_slice(&header);
    entry.push(5); // stream length
    entry.push(stream_type);
    entry.extend_from_slice(&coding);
    entry
}

/// [`build_item`] with the 4-byte codec id chosen by the caller — `*b"M2TS"`
/// for an ordinary clip, `*b"FMTS"` for one whose stream file is `*.FMTS`.
/// The codec id is written for both the item and each angle entry.
fn build_item_codec(
    name: &str,
    codec: [u8; 4],
    in_time: u32,
    out_time: u32,
    angles: Option<&[&str]>,
    counts: [u8; 7],
    stream_bytes: &[u8],
) -> Vec<u8> {
    let mut body = Vec::new();
    let mut name_bytes = name.as_bytes().to_vec();
    name_bytes.resize(5, 0);
    body.extend_from_slice(&name_bytes); // +2..7 item name
    body.extend_from_slice(&codec); // +7..11 item type
    body.push(0); // +11
    body.push(if angles.is_some() { 0x10 } else { 0 }); // +12 multiangle flag
    body.push(0); // +13
    body.extend_from_slice(&in_time.to_be_bytes()); // +14..18
    body.extend_from_slice(&out_time.to_be_bytes()); // +18..22
    body.extend_from_slice(&[0_u8; 12]); // +22..34
    if let Some(angle_names) = angles {
        body.push(u8::try_from(angle_names.len().wrapping_add(1)).unwrap()); // angles byte
        body.push(0); // reserved (pos += 2)
        for angle_name in angle_names {
            let mut ab = angle_name.as_bytes().to_vec();
            ab.resize(5, 0);
            body.extend_from_slice(&ab); // angle name (5)
            body.extend_from_slice(&codec); // angle type (4)
            body.push(0); // reserved (1)
        }
    }
    body.extend_from_slice(&[0_u8; 2]); // stream-info length (unused)
    body.extend_from_slice(&[0_u8; 2]); // reserved
    body.extend_from_slice(&counts); // 7 count bytes
    body.extend_from_slice(&[0_u8; 5]); // reserved
    body.extend_from_slice(stream_bytes);
    let mut item = u16::try_from(body.len()).unwrap().to_be_bytes().to_vec();
    item.extend_from_slice(&body);
    item
}

/// A 14-byte `PlayListMark` entry: `chapter_type` at +1, `file_index` at +2,
/// `chapter_time` at +4.
fn chapter_entry(chapter_type: u8, file_index: u16, chapter_time: u32) -> Vec<u8> {
    let mut entry = vec![0, chapter_type];
    entry.extend_from_slice(&file_index.to_be_bytes());
    entry.extend_from_slice(&chapter_time.to_be_bytes());
    entry.resize(14, 0);
    entry
}

/// Wraps items + chapter entries in a valid MPLS envelope (`PlayList` at
/// `0x3C`, then `PlayListMark`).
fn build_mpls(misc_flags: u8, items: &[Vec<u8>], chapters: &[Vec<u8>]) -> Vec<u8> {
    let playlist_offset: usize = 0x3C;
    let mut playlist = Vec::new();
    playlist.extend_from_slice(&[0_u8; 4]); // PlayList length
    playlist.extend_from_slice(&[0_u8; 2]); // reserved
    playlist.extend_from_slice(&u16::try_from(items.len()).unwrap().to_be_bytes());
    playlist.extend_from_slice(&[0_u8; 2]); // sub-item count
    for item in items {
        playlist.extend_from_slice(item);
    }
    let chapters_offset = playlist_offset.wrapping_add(playlist.len());
    let mut mark = Vec::new();
    mark.extend_from_slice(&[0_u8; 4]); // PlayListMark length
    mark.extend_from_slice(&u16::try_from(chapters.len()).unwrap().to_be_bytes());
    for chapter in chapters {
        mark.extend_from_slice(chapter);
    }
    let mut buf = Vec::new();
    buf.extend_from_slice(b"MPLS0300");
    buf.extend_from_slice(&u32::try_from(playlist_offset).unwrap().to_be_bytes());
    buf.extend_from_slice(&u32::try_from(chapters_offset).unwrap().to_be_bytes());
    buf.extend_from_slice(&[0_u8; 4]); // extensions offset (unused)
    buf.resize(0x38, 0);
    buf.push(misc_flags); // misc flags at 0x38
    buf.resize(playlist_offset, 0);
    buf.extend_from_slice(&playlist);
    buf.extend_from_slice(&mark);
    buf
}

/// Builds a 192-byte BDAV source packet with adaptation-field-control `afc`
/// (2 bits): a 4-byte `TP_extra_header` time code, the `0x47` sync byte, a
/// 3-byte TS header (`PUSI`/`PID`/`afc`), then `payload` padded to 184 bytes.
fn packet_raw(pid: u16, pusi: bool, afc: u8, payload: &[u8]) -> Vec<u8> {
    let [hi, lo] = pid.to_be_bytes();
    let mut p = vec![0_u8, 0, 0, 0, 0x47];
    p.push((if pusi { 0x40 } else { 0 }) | (hi & 0x1F));
    p.push(lo);
    p.push((afc & 0x3).wrapping_shl(4)); // TSC=0, AFC, CC=0
    let mut pl = payload.to_vec();
    pl.resize(184, 0xFF);
    p.extend_from_slice(&pl);
    p
}

/// A payload-only (AFC = 01) packet — the common case.
fn packet(pid: u16, pusi: bool, payload: &[u8]) -> Vec<u8> {
    packet_raw(pid, pusi, 0x1, payload)
}

/// Builds a PAT payload announcing a single program (number 1) on `pmt_pid`.
fn pat_payload(pmt_pid: u16) -> Vec<u8> {
    let [hi, lo] = pmt_pid.to_be_bytes();
    vec![
        0x00, // pointer_field
        0x00, // table_id (PAT)
        0xB0,
        0x0D, // section_syntax + section_length = 13
        0x00,
        0x01, // transport_stream_id
        0xC1, // reserved + version + current_next
        0x00, // section_number
        0x00, // last_section_number
        0x00,
        0x01, // program_number = 1
        0xE0 | (hi & 0x1F),
        lo, // reserved + PMT PID
        0x00,
        0x00,
        0x00,
        0x00, // CRC (unvalidated)
    ]
}

/// Builds a PMT payload listing `streams` (each `(stream_type, pid)`),
/// `table_id` `0x02`, no program-info, no per-stream ES-info.
fn pmt_payload(streams: &[(u8, u16)]) -> Vec<u8> {
    let mut entries = Vec::new();
    for &(st, pid) in streams {
        let [hi, lo] = pid.to_be_bytes();
        entries.extend_from_slice(&[st, 0xE0 | (hi & 0x1F), lo, 0xF0, 0x00]);
    }
    let section_len = entries.len().wrapping_add(13); // 9 header + 4 CRC
    let [slhi, sllo] = u16::try_from(section_len).unwrap().to_be_bytes();
    let mut p = vec![
        0x00, // pointer_field
        0x02, // table_id (PMT)
        0xB0 | (slhi & 0x0F),
        sllo, // section_syntax + section_length
        0x00,
        0x01, // program_number
        0xC1, // version + current_next
        0x00, // section_number
        0x00, // last_section_number
        0xE0,
        0x00, // reserved + PCR_PID
        0xF0,
        0x00, // reserved + program_info_length = 0
    ];
    p.extend_from_slice(&entries);
    p.extend_from_slice(&[0, 0, 0, 0]); // CRC
    p
}

/// Encodes a 33-bit `pts` into the 5-byte MPEG PTS field (standard marker bits).
/// The demuxer decodes this back to the full 33-bit `pts`, bit 32 included.
fn encode_pts(pts: u64) -> [u8; 5] {
    [
        0x21 | u8::try_from(pts.wrapping_shr(29) & 0x0E).unwrap(),
        u8::try_from(pts.wrapping_shr(22) & 0xFF).unwrap(),
        0x01 | u8::try_from(pts.wrapping_shr(14) & 0xFE).unwrap(),
        u8::try_from(pts.wrapping_shr(7) & 0xFF).unwrap(),
        0x01 | u8::try_from(pts.wrapping_shl(1) & 0xFE).unwrap(),
    ]
}

/// A PES payload carrying a PTS (no DTS) and `data.len()` elementary bytes,
/// with `stream_id` as the start-code's fourth byte (e.g. `0xE0` video, `0xC0`
/// audio).
fn pes_pts(stream_id: u8, pts: u64, data: &[u8]) -> Vec<u8> {
    let pes_len = data.len().wrapping_add(8); // 3 prefix + 5 PTS + data
    let [lhi, llo] = u16::try_from(pes_len).unwrap().to_be_bytes();
    let mut p = vec![0x00, 0x00, 0x01, stream_id, lhi, llo, 0x80, 0x80, 0x05];
    p.extend_from_slice(&encode_pts(pts));
    p.extend_from_slice(data);
    p
}

/// A PES payload carrying a PTS **and** DTS plus `data.len()` elementary bytes.
fn pes_dts(stream_id: u8, pts: u64, dts: u64, data: &[u8]) -> Vec<u8> {
    let pes_len = data.len().wrapping_add(13); // 3 prefix + 10 PTS/DTS + data
    let [lhi, llo] = u16::try_from(pes_len).unwrap().to_be_bytes();
    let mut p = vec![0x00, 0x00, 0x01, stream_id, lhi, llo, 0x80, 0xC0, 0x0A];
    // The PTS marker nibble is 0x3 with DTS present; the demux ignores it.
    let mut pts_bytes = encode_pts(pts);
    pts_bytes[0] |= 0x10;
    p.extend_from_slice(&pts_bytes);
    p.extend_from_slice(&encode_pts(dts));
    p.extend_from_slice(data);
    p
}

/// A valid `*.clpi`: `HDMV0300`, `ProgramInfo` at offset 16, one program
/// sequence, one entry per `(pid, coding_type, 4-byte payload)`.
fn clpi(entries: &[(u16, u8, [u8; 4])]) -> Vec<u8> {
    build_clpi(*b"HDMV0300", entries)
}

/// A valid single-item `*.mpls` with no extra camera angles (the common case).
fn mpls(item_name: &str, in_t: u32, out_t: u32, chapters: &[(u8, u16, u32)]) -> Vec<u8> {
    mpls_angles(item_name, in_t, out_t, &[], chapters)
}

/// A valid single-item `*.mpls` with `angle_names` extra camera angles and an
/// empty Stream-Number table.
fn mpls_angles(
    item_name: &str,
    in_t: u32,
    out_t: u32,
    angle_names: &[&str],
    chapters: &[(u8, u16, u32)],
) -> Vec<u8> {
    mpls_items(&[item_name], in_t, out_t, angle_names, &[], chapters)
}

/// A valid single-item `*.mpls` with no angles that declares the given
/// audio PIDs in its Stream-Number table.
fn mpls_declared(
    item_name: &str,
    in_t: u32,
    out_t: u32,
    declared_audio: &[u16],
    chapters: &[(u8, u16, u32)],
) -> Vec<u8> {
    mpls_items(&[item_name], in_t, out_t, &[], declared_audio, chapters)
}

/// A valid `*.mpls`: `MPLS0300`, one identical `PlayItem` per name in
/// `item_names` with the given in/out times (45 kHz ticks), `angle_names`
/// extra camera angles, a Stream-Number table declaring `declared_audio`
/// as AC3 audio entries, and the given `(chapter_type, file_index, tick)`
/// marks. Repeating a name yields a looping playlist (the same clip
/// replayed from the same in-time).
fn mpls_items(
    item_names: &[&str],
    in_t: u32,
    out_t: u32,
    angle_names: &[&str],
    declared_audio: &[u16],
    chapters: &[(u8, u16, u32)],
) -> Vec<u8> {
    mpls_items_codec(*b"M2TS", item_names, in_t, out_t, angle_names, declared_audio, chapters)
}

/// A single-item-per-name `*.mpls` whose play items (and angles) carry the
/// given 4-byte `codec` id — `*b"M2TS"` for ordinary clips, `*b"FMTS"` for the
/// `*.FMTS` variant.
fn mpls_items_codec(
    codec: [u8; 4],
    item_names: &[&str],
    in_t: u32,
    out_t: u32,
    angle_names: &[&str],
    declared_audio: &[u16],
    chapters: &[(u8, u16, u32)],
) -> Vec<u8> {
    // Each declared PID becomes one AC3 5.1 / 48 kHz English entry, so the
    // counts array names audio alone.
    let mut stream_bytes = Vec::new();
    for &pid in declared_audio {
        stream_bytes.extend(pl_stream(1, pid, 0x81, [0x61, b'e', b'n', b'g']));
    }
    let counts = [0, u8::try_from(declared_audio.len()).unwrap(), 0, 0, 0, 0, 0];
    // An empty angle list is a single-angle item, not a multi-angle one with
    // no extra angles — the two differ in the item's multiangle flag.
    let angles = if angle_names.is_empty() { None } else { Some(angle_names) };
    let items: Vec<Vec<u8>> = item_names
        .iter()
        .map(|name| build_item_codec(name, codec, in_t, out_t, angles, counts, &stream_bytes))
        .collect();
    let marks: Vec<Vec<u8>> = chapters
        .iter()
        .map(|&(chapter_type, file_index, tick)| chapter_entry(chapter_type, file_index, tick))
        .collect();
    build_mpls(0, &items, &marks)
}

/// A valid `*.mpls` with zero play items — its `stream_clips` are empty, so
/// the reference-clip selection finds nothing.
fn empty_mpls() -> Vec<u8> {
    build_mpls(0, &[], &[])
}

/// `bdmt_eng.xml` with the given title in the `discinfo` namespace.
fn title_xml(name: &str) -> Vec<u8> {
    format!(
        "<disclib xmlns:di=\"urn:BDA:bdmv;discinfo\">\
         <di:discinfo><di:title><di:name>{name}</di:name></di:title></di:discinfo></disclib>"
    )
    .into_bytes()
}

/// Words for the streams of these tests.
struct Render;

impl Render {
    fn names(s: &TsStream) -> (&'static str, &'static str) {
        match s.stream_type() {
            TsStreamType::AvcVideo => ("AVC", "MPEG-4 AVC Video"),
            TsStreamType::MvcVideo => ("MVC", "MPEG-4 MVC Video"),
            TsStreamType::HevcVideo => ("HEVC", "MPEG-H HEVC Video"),
            TsStreamType::LpcmAudio => ("LPCM", "LPCM Audio"),
            TsStreamType::Ac3Audio => ("AC3", "Dolby Digital Audio"),
            TsStreamType::PresentationGraphics => ("PGS", "Presentation Graphics"),
            TsStreamType::Subtitle => ("SUB", "Subtitle"),
            _ => ("?", "Other"),
        }
    }
}

impl StreamText for Render {
    fn codec_short_name(&self, s: &TsStream) -> String {
        Self::names(s).0.to_owned()
    }

    fn codec_name(&self, s: &TsStream) -> String {
        Self::names(s).1.to_owned()
    }

    fn codec_alt_name(&self, s: &TsStream) -> String {
        Self::names(s).0.to_owned()
    }

    fn language_name(&self, s: &TsStream) -> String {
        let code = match s.base().language_code {
            Some(code) => format!("{}{}{}", code.first, code.second, code.third),
            None => String::new(),
        };
        match code.as_str() {
            "jpn" => "Japanese",
            "eng" => "English",
            "deu" => "German",
            "fra" => "French",
            _ => "",
        }
        .to_owned()
    }

    fn description(&self, s: &TsStream) -> String {
        match s {
            TsStream::Video(v) if s.stream_type() != TsStreamType::MvcVideo => format!(
                "{}p / {}",
                v.height,
                v.encoding_profile.as_deref().unwrap_or("no profile")
            ),
            TsStream::Audio(a) => format!(
                "{} / {} Hz / {} kbps / {}-bit",
                self.channel_description(s),
                a.sample_rate,
                a.base.bit_rate / 1000,
                a.bit_depth
            ),
            TsStream::Graphics(g) if g.captions > 0 => {
                format!("{}x{} / {} Captions", g.width, g.height, g.captions)
            }
            _ => String::new(),
        }
    }

    fn full_description(&self, s: &TsStream) -> String {
        format!("{} / full", self.description(s))
    }

    fn channel_description(&self, s: &TsStream) -> String {
        match s {
            TsStream::Audio(a) => format!("{}.{}", a.channel_count, a.lfe),
            _ => String::new(),
        }
    }
}

/// Codecs that know the few access units of these tests.
struct Codecs;

impl AccessUnits for Codecs {
    fn analyse(
        &self,
        stream: &TsStream,
        payload: &Vec<u8>,
        _rate: i64,
        _full: bool,
    ) -> AccessUnitScan {
        let mut stream = stream.clone();
        let mut base = *stream.base();
        let mut tag = None;
        match stream.stream_type() {
            TsStreamType::AvcVideo => {
                if payload.starts_with(&[0x00, 0x00, 0x01, 0x67, 100, 0x00, 41]) {
                    base.is_initialized = true;
                    base.is_vbr = true;
                    if let TsStream::Video(video) = &mut stream {
                        video.encoding_profile = Some("High Profile 4.1".to_owned());
                    }
                }
                if payload.starts_with(&[0x00, 0x00, 0x01, 0x09, 0x10]) {
                    tag = Some("I".to_owned());
                }
            }
            TsStreamType::MvcVideo => {
                base.is_initialized = true;
                base.is_vbr = true;
            }
            TsStreamType::Ac3Audio => {
                if payload.starts_with(&[0x0B, 0x77]) {
                    base.is_initialized = true;
                }
            }
            _ => {}
        }
        stream.set_base(base);
        AccessUnitScan { stream, tag }
    }
}

/// A file; its reading fails once `fail_read_at` bytes have been served.
#[derive(Clone)]
struct MockFile {
    name: String,
    bytes: Vec<u8>,
    fail_read_at: Option<usize>,
}

impl MockFile {
    fn new(name: &str, bytes: Vec<u8>) -> Self {
        Self { name: name.to_owned(), bytes, fail_read_at: None }
    }

    fn entry(&self) -> FileEntry {
        FileEntry {
            name: self.name.clone(),
            length: self.bytes.len() as u64,
            content: if self.fail_read_at == Some(0) {
                Err(BdError::Io("read failed".to_owned()))
            } else {
                Ok(self.bytes.clone())
            },
        }
    }
}

/// A directory; its listings fail where they are marked to.
#[derive(Clone)]
struct MockDir {
    name: String,
    dirs: Vec<MockDir>,
    files: Vec<MockFile>,
    fail_dirs: bool,
    fail_files: bool,
}

impl MockDir {
    fn new(name: &str, dirs: Vec<MockDir>, files: Vec<MockFile>) -> Self {
        Self { name: name.to_owned(), dirs, files, fail_dirs: false, fail_files: false }
    }

    fn entry(&self) -> DirEntry {
        let failure = || BdError::Io("injected io failure".to_owned());
        DirEntry {
            name: self.name.clone(),
            files: if self.fail_files {
                Err(failure())
            } else {
                Ok(self.files.iter().map(MockFile::entry).collect())
            },
            dirs: if self.fail_dirs {
                Err(failure())
            } else {
                Ok(self.dirs.iter().map(MockDir::entry).collect())
            },
        }
    }

    /// The directory called `name`, made where it is missing.
    fn child(&mut self, name: &str) -> &mut MockDir {
        if let Some(at) = self.dirs.iter().position(|d| d.name == name) {
            return &mut self.dirs[at];
        }
        self.dirs.push(MockDir::new(name, Vec::new(), Vec::new()));
        self.dirs.last_mut().unwrap()
    }

    /// The directory at `path`, made where it is missing.
    fn at(&mut self, path: &str) -> &mut MockDir {
        let mut dir = self;
        for part in path.split('/').filter(|p| !p.is_empty()) {
            dir = dir.child(part);
        }
        dir
    }

    fn chain(&self) -> Vec<DirEntry> {
        vec![self.entry()]
    }

    /// The stream files whose reading fails, with the bytes that they serve before.
    fn damage(&self, out: &mut BTreeMap<String, usize>) {
        for file in &self.files {
            if let Some(serve) = file.fail_read_at {
                out.insert(file.name.clone(), serve);
            }
        }
        for dir in &self.dirs {
            dir.damage(out);
        }
    }

    fn store(&self) -> Store {
        let mut damage = BTreeMap::new();
        self.damage(&mut damage);
        Store::new(damage)
    }

    fn open(&self, mode: ScanMode) -> Result<BdRom, BdError> {
        let store = self.store();
        scan_with(self, &store, mode, None)
    }

    fn open_resilient(&self, mode: ScanMode) -> Result<ScanReport, BdError> {
        self.open_resilient_with(mode, ScanOptions::default(), None)
    }

    fn open_resilient_with(
        &self,
        mode: ScanMode,
        options: ScanOptions,
        selection: Option<&Vec<String>>,
    ) -> Result<ScanReport, BdError> {
        let store = self.store();
        BdRom::open_resilient_with(
            &Render,
            &Codecs,
            &store,
            &self.chain(),
            mode,
            options,
            selection,
            &mut store.watcher(),
        )
    }
}

/// What a store, its readers and its observer share.
struct Shared {
    events: RefCell<Vec<(String, u64, u64)>>,
    cancelled: Cell<bool>,
    cancel_on_event: bool,
}

/// An observer that writes down what it is told, and may ask for a stop.
struct Watcher {
    shared: Rc<Shared>,
}

impl ScanObserver for Watcher {
    fn observe(&mut self, p: ScanProgress<'_>) {
        self.shared.events.borrow_mut().push((p.file.to_owned(), p.done, p.total));
        if self.shared.cancel_on_event {
            self.shared.cancelled.set(true);
        }
    }
}

/// Stream files read from their entries, with cancellation and damage.
struct Store {
    damage: BTreeMap<String, usize>,
    shared: Rc<Shared>,
}

impl Store {
    fn new(damage: BTreeMap<String, usize>) -> Self {
        Self::with(damage, false, false)
    }

    fn with(damage: BTreeMap<String, usize>, cancelled: bool, cancel_on_event: bool) -> Self {
        Self {
            damage,
            shared: Rc::new(Shared {
                events: RefCell::new(Vec::new()),
                cancelled: Cell::new(cancelled),
                cancel_on_event,
            }),
        }
    }

    fn watcher(&self) -> Watcher {
        Watcher { shared: Rc::clone(&self.shared) }
    }

    fn events(&self) -> Vec<(String, u64, u64)> {
        self.shared.events.borrow().clone()
    }
}

/// Reads one stream file.
struct Reader {
    bytes: Vec<u8>,
    at: usize,
    chunk: usize,
    serve: usize,
    shared: Rc<Shared>,
}

impl ByteSource for Reader {
    fn is_stopped(&self) -> bool {
        self.shared.cancelled.get()
    }

    fn read(&mut self) -> Result<Vec<u8>, BdError> {
        let want = self.chunk.min(self.bytes.len() - self.at);
        let left = self.serve.saturating_sub(self.at);
        // A chunk that cannot be filled, or whose end cannot be seen, is lost whole.
        if left < want || (want < self.chunk && left == want) {
            return Err(BdError::Io("read failed".to_owned()));
        }
        let out = self.bytes[self.at..self.at + want].to_vec();
        self.at += want;
        Ok(out)
    }
}

impl StreamStore for Store {
    type Reader = Reader;

    fn open(&self, file: &FileEntry, _interleaved: bool, full: bool) -> Result<Reader, BdError> {
        let serve = self.damage.get(&file.name).copied();
        let bytes = match (&file.content, serve) {
            (Ok(bytes), _) => bytes.clone(),
            // The file opens; its first read fails.
            (Err(_), Some(_)) => vec![0; file.length as usize],
            (Err(e), None) => return Err(e.duplicate()),
        };
        Ok(Reader {
            bytes,
            at: 0,
            chunk: if full { DATA_SIZE } else { 16_384 },
            serve: serve.unwrap_or(usize::MAX),
            shared: Rc::clone(&self.shared),
        })
    }
}

/// A disc of plain files.
struct TempDisc {
    root: MockDir,
}

impl TempDisc {
    fn build(dirs: &[&str], files: &[(&str, Vec<u8>)]) -> Self {
        let mut root = MockDir::new("bdinfo-rs-disc-0", Vec::new(), Vec::new());
        for dir in dirs {
            root.at(dir);
        }
        for (path, bytes) in files {
            let (dir, name) = path.rsplit_once('/').unwrap_or(("", path));
            root.at(dir).files.push(MockFile::new(name, bytes.clone()));
        }
        Self { root }
    }

    fn scan(&self, mode: ScanMode) -> Result<BdRom, BdError> {
        BdRom::open(&Render, &Codecs, &self.root.chain(), mode)
    }

    fn open(&self) -> Result<BdRom, BdError> {
        self.scan(ScanMode::Metadata)
    }

    fn open_scanned(&self) -> Result<BdRom, BdError> {
        self.scan(ScanMode::Full)
    }

    fn open_codecs(&self) -> Result<BdRom, BdError> {
        self.scan(ScanMode::Codecs)
    }

    fn open_resilient(&self, mode: ScanMode) -> Result<ScanReport, BdError> {
        BdRom::open_resilient(&Render, &Codecs, &self.root.chain(), mode)
    }
}

#[test]
fn open_scans_a_full_disc() {
    let clip = clpi(&[
        (0x1011, 0x1B, [0x63, 0x30, 0, 0]),       // AVC 1080p / 25 fps
        (0x1100, 0x81, [0x61, b'e', b'n', b'g']), // AC3 audio
        (0x1200, 0x90, [b'e', b'n', b'g', 0]),    // PG graphics
        (0x1A00, 0x92, [0, b'f', b'r', b'a']),    // subtitle text
    ]);
    let play = mpls("00000", 2_700_000, 4_500_000, &[(1, 0, 2_700_000)]);
    let index = b"INDX0300\x00\x00".to_vec();
    let xml = title_xml("Movie");
    let m2ts = vec![0_u8; 1000];
    let ssif = vec![0_u8; 500];

    // The trailing three ones: the bdjo, the mnv, and FilmIndex.xml.
    let expected_size: u64 =
        [index.len(), play.len(), clip.len(), m2ts.len(), xml.len(), 1, 1, 1]
            .iter()
            .map(|&n| u64::try_from(n).unwrap())
            .sum();

    let disc = TempDisc::build(
        &["BDSVM"],
        &[
            ("BDMV/index.bdmv", index),
            ("BDMV/PLAYLIST/00000.mpls", play),
            ("BDMV/CLIPINF/00000.clpi", clip),
            ("BDMV/STREAM/00000.m2ts", m2ts),
            ("BDMV/STREAM/SSIF/00000.ssif", ssif), // excluded from Size, used for ifilesize
            ("BDMV/META/DL/bdmt_eng.xml", xml),
            ("BDMV/BDJO/00000.bdjo", vec![b'x']),
            ("SNP/clip.mnv", vec![b'x']),
            ("FilmIndex.xml", vec![b'x']),
        ],
    );
    let bd = disc.open().expect("scan full disc");

    assert!(bd.volume_label.starts_with("bdinfo-rs-disc-"));
    assert_eq!(bd.disc_title.as_deref(), Some("Movie"));
    assert_eq!(bd.size, expected_size); // the 500-byte .ssif is excluded
    assert!(bd.is_uhd);
    assert!(bd.is_3d);
    assert!(bd.is_bd_plus);
    assert!(bd.is_bd_java);
    assert!(bd.is_dbox);
    assert!(bd.is_psp);
    assert!(!bd.is_aacs_encrypted); // no AACS/Unit_Key_RO.inf
    assert!(bd.is_50hz);
    // Every extras label, in the fixed presentation order.
    assert_eq!(
        bd.extra_features(),
        [
            "Ultra HD",
            "BD-Java",
            "50Hz Content",
            "Blu-ray 3D",
            "D-BOX Motion Code",
            "PSP Digital Copy"
        ]
    );

    assert_eq!(bd.playlists.len(), 1);
    let pl = bd.playlists.first().unwrap();
    assert_eq!(pl.name, "00000.MPLS");
    assert_eq!(seconds(pl.total_length).to_bits(), 40.0_f64.to_bits());
    assert_eq!(pl.file_size, 1000);
    assert_eq!(pl.interleaved_file_size, 500);
    // The single clip carries the same on-disk sizes (its `*.m2ts` + `*.ssif`).
    assert_eq!(pl.clips.len(), 1);
    let clip0 = pl.clips.first().unwrap();
    assert_eq!(clip0.file_size, 1000);
    assert_eq!(clip0.interleaved_file_size, 500);
    assert_eq!(pl.chapter_count, 1);
    assert_eq!(pl.stream_count, 4);
    // The scan-free open leaves the presented streams unfilled by codec detail
    // but still built from the clip-info entries (one per kind).
    assert_eq!(pl.streams.len(), 4);

    // The packet scan reads the (synthetic, codec-less) `*.m2ts`: the streams are
    // still the four clip-info entries (no codec detail to merge), in PID order.
    let scanned = disc.open_scanned().expect("packet-scan the disc");
    let pl = scanned.playlists.first().unwrap();
    assert_eq!(pl.stream_count, 4);
    let pids: Vec<u16> = pl.streams.iter().map(|s| s.pid.get()).collect();
    assert_eq!(pids, vec![0x1011, 0x1100, 0x1200, 0x1A00]);
    assert_eq!(pl.streams.first().unwrap().stream_type.name(), "AVC_VIDEO");

    // One chapter row per mark; the synthetic (codec-less) stream yields
    // no frames, so the row keeps its times with zero rates.
    assert_eq!(pl.chapters.len(), 1);
    let row = pl.chapters.first().unwrap();
    assert_eq!(seconds(row.time_in).to_bits(), 0.0_f64.to_bits());
    assert_eq!(seconds(row.length).to_bits(), 40.0_f64.to_bits());
    assert_eq!(bits(row.avg_rate).to_bits(), 0.0_f64.to_bits());
}

#[test]
fn open_scans_a_disc_with_empty_dirs_and_missing_stream() {
    let clip = clpi(&[(0x1011, 0x1B, [0x62, 0x30, 0, 0])]); // 1080p / 24 fps
    let play = mpls("00000", 0, 4_500_000, &[]); // 100 s, no chapters
    let disc = TempDisc::build(
        &["BDMV/BDJO", "BDMV/STREAM/SSIF"], // present but empty
        &[
            ("BDMV/PLAYLIST/00000.mpls", play),
            ("BDMV/CLIPINF/00000.clpi", clip),
            ("BDMV/META/note.txt", vec![b'x']), // META present, no bdmt_eng.xml
            ("SNP/note.txt", vec![b'x']),       // SNP present, no *.mnv
            ("readme.txt", vec![b'x']),         // a root file that is not FilmIndex.xml
        ],
    );
    let bd = disc.open().expect("scan sparse disc");

    assert!(!bd.is_uhd); // no index.bdmv
    assert!(!bd.is_3d); // SSIF empty
    assert!(!bd.is_bd_plus); // no BDSVM/SLYVM/ANYVM
    assert!(!bd.is_bd_java); // BDJO empty
    assert!(!bd.is_dbox); // no FilmIndex.xml in the root
    assert!(!bd.is_psp); // SNP has no *.mnv
    assert!(!bd.is_aacs_encrypted); // no AACS/Unit_Key_RO.inf
    assert!(bd.extra_features().is_empty()); // no flag set, no label
    assert!(!bd.is_50hz); // 24 fps
    assert_eq!(bd.disc_title, None); // META has no bdmt_eng.xml

    let pl = bd.playlists.first().unwrap();
    assert_eq!(seconds(pl.total_length).to_bits(), 100.0_f64.to_bits());
    assert_eq!(pl.file_size, 0); // no *.m2ts on disc
    assert_eq!(pl.interleaved_file_size, 0);
    // The clip mirrors the absence: no on-disk file, no interleaved file.
    let clip0 = pl.clips.first().unwrap();
    assert_eq!(clip0.file_size, 0);
    assert_eq!(clip0.interleaved_file_size, 0);
    assert_eq!(pl.chapter_count, 0);
    assert_eq!(pl.stream_count, 1);
}

/// One Aligned Unit: `0x47` at the sync positions `present` selects
/// (packet 0 first), `0xAA` everywhere else.
fn unit_with_syncs(present: &[bool; 32]) -> [u8; ALIGNED_UNIT_BYTES] {
    let mut unit = [0xAA_u8; ALIGNED_UNIT_BYTES];
    for (packet, &sync) in unit.chunks_exact_mut(SOURCE_PACKET_BYTES).zip(present) {
        if sync {
            packet[4] = 0x47;
        }
    }
    unit
}

/// One Aligned Unit with the exact encryption fingerprint: packet 0's sync
/// intact, the other 31 sync positions ciphertext (no chance matches).
fn encrypted_unit() -> [u8; ALIGNED_UNIT_BYTES] {
    let mut present = [false; 32];
    present[0] = true;
    unit_with_syncs(&present)
}

/// The first two Aligned Units of an AACS-encrypted stream file.
fn encrypted_stream() -> Vec<u8> {
    [encrypted_unit().as_slice(), encrypted_unit().as_slice()].concat()
}

/// Two clear Aligned Units: all 32 sync bytes in place in each.
fn clear_stream() -> Vec<u8> {
    let unit = unit_with_syncs(&[true; 32]);
    [unit.as_slice(), unit.as_slice()].concat()
}

#[test]
fn the_unit_fingerprint_needs_the_first_sync_and_tolerates_only_stray_ones() {
    let mut present = [false; 32];
    present[0] = true;
    // The exact fingerprint, and up to MAX_STRAY_SYNCS chance matches.
    assert!(unit_shows_encryption(&unit_with_syncs(&present).to_vec(), 0));
    present[7] = true;
    present[15] = true;
    present[31] = true;
    assert!(unit_shows_encryption(&unit_with_syncs(&present).to_vec(), 0));
    // One stray past the tolerance is no longer the fingerprint.
    present[20] = true;
    assert!(!unit_shows_encryption(&unit_with_syncs(&present).to_vec(), 0));
    // Without packet 0's sync nothing reads encrypted, however few strays.
    present[0] = false;
    assert!(!unit_shows_encryption(&unit_with_syncs(&present).to_vec(), 0));
    assert!(!unit_shows_encryption(&unit_with_syncs(&[false; 32]).to_vec(), 0));
    // A clear unit shows all 32 syncs — the container guarantee.
    assert!(!unit_shows_encryption(&unit_with_syncs(&[true; 32]).to_vec(), 0));
}

#[test]
fn an_encrypted_disc_sets_the_aacs_flag_without_a_scan_error() {
    let disc = TempDisc::build(
        &["BDMV/PLAYLIST", "BDMV/CLIPINF"],
        &[
            ("AACS/Unit_Key_RO.inf", Vec::new()),
            ("BDMV/STREAM/00000.m2ts", encrypted_stream()),
            ("BDMV/STREAM/00001.m2ts", encrypted_stream()),
        ],
    );
    assert!(disc.open().expect("scan encrypted disc").is_aacs_encrypted);
    // State only: the resilient sink records nothing for the verdict.
    let report = disc.open_resilient(ScanMode::Metadata)
        .expect("resilient scan");
    assert!(report.bdrom.is_aacs_encrypted);
    assert!(report.errors.is_empty());
}

#[test]
fn the_aacs_marker_matches_case_insensitively_and_one_stream_file_suffices() {
    let disc = TempDisc::build(
        &["BDMV/PLAYLIST", "BDMV/CLIPINF"],
        &[("aacs/UNIT_KEY_RO.INF", Vec::new()), ("BDMV/STREAM/00000.m2ts", encrypted_stream())],
    );
    assert!(disc.open().expect("scan encrypted disc").is_aacs_encrypted);
}

#[test]
fn a_decrypted_rip_keeping_the_aacs_folder_is_not_encrypted() {
    // The feature's safety proof: the key file plus clear streams is a
    // decrypted rip, and it must scan exactly like any clear disc.
    let disc = TempDisc::build(
        &["BDMV/PLAYLIST", "BDMV/CLIPINF"],
        &[
            ("AACS/Unit_Key_RO.inf", Vec::new()),
            ("BDMV/STREAM/00000.m2ts", clear_stream()),
            ("BDMV/STREAM/00001.m2ts", clear_stream()),
        ],
    );
    assert!(!disc.open().expect("scan decrypted rip").is_aacs_encrypted);
}

#[test]
fn encrypted_looking_streams_without_the_key_file_stay_unflagged() {
    // No AACS directory at all…
    let bare = TempDisc::build(
        &["BDMV/PLAYLIST", "BDMV/CLIPINF"],
        &[("BDMV/STREAM/00000.m2ts", encrypted_stream())],
    );
    assert!(!bare.open().expect("scan").is_aacs_encrypted);
    // …and an AACS directory without Unit_Key_RO.inf.
    let keyless = TempDisc::build(
        &["BDMV/PLAYLIST", "BDMV/CLIPINF"],
        &[("AACS/Content000.cer", vec![b'x']), ("BDMV/STREAM/00000.m2ts", encrypted_stream())],
    );
    assert!(!keyless.open().expect("scan").is_aacs_encrypted);
}

#[test]
fn a_keyed_disc_without_confirmable_stream_content_is_not_encrypted() {
    // No STREAM directory…
    let streamless = TempDisc::build(
        &["BDMV/PLAYLIST", "BDMV/CLIPINF"],
        &[("AACS/Unit_Key_RO.inf", Vec::new())],
    );
    assert!(!streamless.open().expect("scan").is_aacs_encrypted);
    // …an empty STREAM directory (the all-of-nothing guard)…
    let empty = TempDisc::build(
        &["BDMV/PLAYLIST", "BDMV/CLIPINF", "BDMV/STREAM"],
        &[("AACS/Unit_Key_RO.inf", Vec::new())],
    );
    assert!(!empty.open().expect("scan").is_aacs_encrypted);
    // …and a stream file too short for two Aligned Units.
    let short = TempDisc::build(
        &["BDMV/PLAYLIST", "BDMV/CLIPINF"],
        &[
            ("AACS/Unit_Key_RO.inf", Vec::new()),
            ("BDMV/STREAM/00000.m2ts", encrypted_unit().to_vec()),
        ],
    );
    assert!(!short.open().expect("scan").is_aacs_encrypted);
}

#[test]
fn any_clear_sample_resolves_to_not_encrypted() {
    // One encrypted and one clear stream file: mixed content is damage or
    // a partial rip, never the fingerprint.
    let mixed = TempDisc::build(
        &["BDMV/PLAYLIST", "BDMV/CLIPINF"],
        &[
            ("AACS/Unit_Key_RO.inf", Vec::new()),
            ("BDMV/STREAM/00000.m2ts", encrypted_stream()),
            ("BDMV/STREAM/00001.m2ts", clear_stream()),
        ],
    );
    assert!(!mixed.open().expect("scan").is_aacs_encrypted);
    // A file whose second Aligned Unit is clear: every sampled unit must
    // agree, not just the first.
    let clear_tail = [encrypted_unit(), unit_with_syncs(&[true; 32])].concat();
    let tailed = TempDisc::build(
        &["BDMV/PLAYLIST", "BDMV/CLIPINF"],
        &[("AACS/Unit_Key_RO.inf", Vec::new()), ("BDMV/STREAM/00000.m2ts", clear_tail)],
    );
    assert!(!tailed.open().expect("scan").is_aacs_encrypted);
}

#[test]
fn the_probe_samples_the_two_largest_stream_files() {
    // Two feature-sized encrypted files plus a tiny menu stub: the stub is
    // never sampled, so its short read cannot fail the verdict open.
    let disc = TempDisc::build(
        &["BDMV/PLAYLIST", "BDMV/CLIPINF"],
        &[
            ("AACS/Unit_Key_RO.inf", Vec::new()),
            ("BDMV/STREAM/00000.m2ts", encrypted_stream()),
            ("BDMV/STREAM/00001.m2ts", encrypted_stream()),
            ("BDMV/STREAM/00002.m2ts", vec![0_u8; 100]),
        ],
    );
    assert!(disc.open().expect("scan").is_aacs_encrypted);
}

#[test]
fn equal_sized_samples_are_chosen_by_name_not_listing_order() {
    let mk = |name: &str, bytes: Vec<u8>| MockFile::new(name, bytes);
    let four_units = [encrypted_stream(), encrypted_stream()].concat();
    // Listed out of name order: the sample must be the largest file plus —
    // by the name tie-break, not listing position — the *clear* 00001, so
    // the verdict is `false`; sampling by listing order would take the two
    // encrypted files and read `true`.
    let stream = MockDir::new(
        "STREAM",
        Vec::new(),
        vec![
            mk("00000.m2ts", four_units.clone()),
            mk("00002.m2ts", encrypted_stream()),
            mk("00001.m2ts", clear_stream()),
        ],
    );
    assert!(!stream_content_encrypted(&stream.entry()));
    // Largest-first, deterministically: with the sizes distinct and listed
    // smallest-first, the two largest (encrypted) files win over the short
    // stub whose sampling would fail the verdict open.
    let sized = MockDir::new(
        "STREAM",
        Vec::new(),
        vec![
            mk("00002.m2ts", vec![0_u8; 100]),
            mk("00001.m2ts", encrypted_stream()),
            mk("00000.m2ts", four_units),
        ],
    );
    assert!(stream_content_encrypted(&sized.entry()));
}

#[test]
fn every_probe_io_failure_reads_as_not_encrypted() {
    let key = || MockFile::new("Unit_Key_RO.inf", Vec::new());
    let aacs = || MockDir::new("AACS", Vec::new(), vec![key()]);
    // All in order → the marker is there.
    let mut root = MockDir::new("disc", vec![aacs()], Vec::new());
    assert!(has_aacs_key_file(&root.entry()));
    // The root listing fails → no marker.
    root.fail_dirs = true;
    assert!(!has_aacs_key_file(&root.entry()));
    // The AACS directory's file listing fails → no marker.
    let mut unlisted = aacs();
    unlisted.fail_files = true;
    let root = MockDir::new("disc", vec![unlisted], Vec::new());
    assert!(!has_aacs_key_file(&root.entry()));
    // The STREAM listing fails → no confirmation.
    let mut stream = MockDir::new("STREAM", Vec::new(), Vec::new());
    stream.fail_files = true;
    assert!(!stream_content_encrypted(&stream.entry()));
    // A stream file that cannot be opened or read → not encrypted.
    let mut unreadable = MockFile::new("00000.m2ts", encrypted_stream());
    let readable = MockDir::new("STREAM", Vec::new(), vec![unreadable.clone()]);
    assert!(stream_content_encrypted(&readable.entry()));
    unreadable.fail_read_at = Some(0);
    let stream = MockDir::new("STREAM", Vec::new(), vec![unreadable]);
    assert!(!stream_content_encrypted(&stream.entry()));
}

#[test]
fn open_scans_a_minimal_disc() {
    let disc = TempDisc::build(
        &["BDMV/PLAYLIST", "BDMV/CLIPINF"],
        &[("BDMV/MovieObject.bdmv", vec![b'x'])], // a non-index file in BDMV
    );
    let bd = disc.open().expect("scan minimal disc");
    assert_eq!(bd.size, 1);
    assert!(!bd.is_uhd && !bd.is_3d && !bd.is_bd_plus && !bd.is_bd_java && !bd.is_psp);
    assert_eq!(bd.disc_title, None);
    assert!(bd.playlists.is_empty());
}

#[test]
fn open_handles_a_playlist_with_no_clips() {
    // A zero-item playlist resolves no reference clip → no presented streams.
    let disc =
        TempDisc::build(&["BDMV/CLIPINF"], &[("BDMV/PLAYLIST/00000.mpls", empty_mpls())]);
    let bd = disc.open().expect("scan clip-less playlist");
    let pl = bd.playlists.first().unwrap();
    assert_eq!(pl.stream_count, 0);
    assert!(pl.streams.is_empty());
    assert_eq!(seconds(pl.total_length).to_bits(), 0.0_f64.to_bits());
    assert!(!bd.is_50hz);
}

#[test]
fn open_marks_undeclared_streams_hidden() {
    // The clip carries video + two audio streams; the playlist declares
    // only the first audio PID — the video and the second audio are
    // presented but hidden by this playlist.
    let clip = clpi(&[
        (0x1011, 0x1B, [0x62, 0x30, 0, 0]),
        (0x1100, 0x81, [0x61, b'e', b'n', b'g']),
        (0x1101, 0x81, [0x61, b'f', b'r', b'a']),
    ]);
    let play = mpls_declared("00000", 0, 4_500_000, &[0x1100], &[]);
    let disc = TempDisc::build(
        &[],
        &[("BDMV/PLAYLIST/00000.mpls", play), ("BDMV/CLIPINF/00000.clpi", clip)],
    );
    let bd = disc.open().expect("scan disc with a declared stream");
    let pl = bd.playlists.first().unwrap();
    let hidden: Vec<(u16, bool)> =
        pl.streams.iter().map(|s| (s.pid.get(), s.is_hidden)).collect();
    assert_eq!(hidden, vec![(0x1011, true), (0x1100, false), (0x1101, true)]);
    assert!(pl.has_hidden_streams());
}

#[test]
fn open_detects_a_looping_playlist() {
    // The same clip replayed from the same in-time → a loop; two different
    // clips (or different in-times) → no loop.
    let clip = clpi(&[(0x1100, 0x81, [0x61, b'e', b'n', b'g'])]);
    let looping = mpls_items(&["00000", "00000"], 0, 4_500_000, &[], &[], &[]);
    let chained = mpls_items(&["00000", "00001"], 0, 4_500_000, &[], &[], &[]);
    let disc = TempDisc::build(
        &[],
        &[
            ("BDMV/PLAYLIST/00000.mpls", looping),
            ("BDMV/PLAYLIST/00001.mpls", chained),
            ("BDMV/CLIPINF/00000.clpi", clip.clone()),
            ("BDMV/CLIPINF/00001.clpi", clip),
        ],
    );
    let bd = disc.open().expect("scan looping disc");
    assert_eq!(bd.playlists.len(), 2);
    assert!(bd.playlists.first().unwrap().has_loops);
    assert!(!bd.playlists.get(1).unwrap().has_loops);
    // The loop also doubles the playlist length (both items count).
    assert_eq!(seconds(bd.playlists.first().unwrap().total_length).to_bits(), 200.0_f64.to_bits());
}

#[test]
fn open_leaves_fully_declared_streams_visible() {
    // The playlist declares every clip stream — nothing is hidden.
    let clip = clpi(&[(0x1100, 0x81, [0x61, b'e', b'n', b'g'])]);
    let play = mpls_declared("00000", 0, 4_500_000, &[0x1100], &[]);
    let disc = TempDisc::build(
        &[],
        &[("BDMV/PLAYLIST/00000.mpls", play), ("BDMV/CLIPINF/00000.clpi", clip)],
    );
    let bd = disc.open().expect("scan disc with all streams declared");
    let pl = bd.playlists.first().unwrap();
    assert!(pl.streams.iter().all(|s| !s.is_hidden));
    assert!(!pl.has_hidden_streams());
}

#[test]
fn open_with_packet_scan_and_no_stream_directory() {
    // A packet scan requested on a disc with no STREAM/ dir → the per-stream-file
    // scan short-circuits; the streams are still built from the clip info.
    let clip = clpi(&[(0x1011, 0x1B, [0x62, 0x30, 0, 0])]);
    let play = mpls("00000", 0, 4_500_000, &[]);
    let disc = TempDisc::build(
        &[],
        &[("BDMV/PLAYLIST/00000.mpls", play), ("BDMV/CLIPINF/00000.clpi", clip)],
    );
    let bd = disc.open_scanned().expect("packet-scan without a STREAM dir");
    let pl = bd.playlists.first().unwrap();
    assert_eq!(pl.stream_count, 1);
    assert_eq!(pl.file_size, 0);
}

#[test]
fn open_counts_only_angle_zero_clips() {
    // A multi-angle playlist: the main clip resolves; the angle clips
    // contribute only to `file_size` and are skipped for the reference clip
    // + `total_length`.
    let clip =
        clpi(&[(0x1011, 0x1B, [0x62, 0x30, 0, 0]), (0x1100, 0x81, [0x61, b'e', b'n', b'g'])]);
    let play = mpls_angles("00000", 2_700_000, 4_500_000, &["00010", "00021"], &[]);
    let disc = TempDisc::build(
        &[],
        &[
            ("BDMV/PLAYLIST/00000.mpls", play),
            ("BDMV/CLIPINF/00000.clpi", clip),
            ("BDMV/STREAM/00000.m2ts", vec![0; 100]),
        ],
    );
    let bd = disc.open().expect("scan multi-angle disc");
    let pl = bd.playlists.first().unwrap();
    assert_eq!(seconds(pl.total_length).to_bits(), 40.0_f64.to_bits()); // main clip only
    assert_eq!(pl.file_size, 100); // only the present main *.m2ts
    // Presented streams = video × (1 + angle_count) + audio = 1×3 + 1.
    assert_eq!(pl.stream_count, 4);
}

/// A PES elementary payload opening with an AVC sequence parameter set
/// (High Profile 4.1), padded to 100 bytes — enough for the AVC scanner to
/// initialise the stream (and mark it VBR) during the quick pass.
fn sps_payload() -> Vec<u8> {
    let mut data = vec![0x00, 0x00, 0x01, 0x67, 100, 0x00, 41];
    data.resize(100, 0xAA);
    data
}

#[test]
fn open_scanned_measures_clips_streams_and_totals() {
    let clip =
        clpi(&[(0x1011, 0x1B, [0x62, 0x30, 0, 0]), (0x1100, 0x81, [0x61, b'e', b'n', b'g'])]);
    let play = mpls("00000", 0, 4_500_000, &[]); // 100 s
    let mut m2ts = packet(0, true, &pat_payload(0x0100));
    // The PMT also announces a graphics stream the clip info does not
    // declare: the demux registers it, but the playlist never presents it,
    // so it stays out of the per-clip tallies.
    m2ts.extend(packet(
        0x0100,
        true,
        &pmt_payload(&[(0x1B, 0x1011), (0x81, 0x1100), (0x90, 0x1200)]),
    ));
    let audio_data = [0xBB_u8; 100];
    m2ts.extend(packet(0x1100, true, &pes_pts(0xC0, 90_000, &audio_data)));
    m2ts.extend(packet(0x1011, true, &pes_dts(0xE0, 90_000, 90_000, &sps_payload())));
    m2ts.extend(packet(0x1011, true, &pes_dts(0xE0, 180_000, 180_000, &sps_payload())));
    m2ts.extend(packet(0x1011, true, &pes_dts(0xE0, 270_000, 270_000, &sps_payload())));
    let disc = TempDisc::build(
        &[],
        &[
            ("BDMV/PLAYLIST/00000.mpls", play),
            ("BDMV/CLIPINF/00000.clpi", clip),
            ("BDMV/STREAM/00000.m2ts", m2ts),
        ],
    );
    let bd = disc.open_scanned().expect("measured scan");
    let pl = bd.playlists.first().unwrap();

    // The video row carries the measured VBR and active rates: 200 payload
    // bytes were window-flushed over 4.0 clip seconds (VBR) and 2.0 stream
    // seconds (active); the junk AC3 never decoded a nominal rate.
    let video = pl.streams.first().unwrap();
    assert_eq!(video.bitrate, 400);
    assert_eq!(video.active_bitrate, 800);
    assert!(video.description.contains("High Profile 4.1"));
    assert_eq!(pl.streams.get(1).unwrap().bitrate, 0);

    // The per-clip measurements: every packet the demux attributed (PAT +
    // PMT + 1 audio + 3 video), the flushed payload, and the demuxed
    // whole-file seconds.
    assert_eq!(pl.clips.len(), 1);
    let clip = pl.clips.first().unwrap();
    assert_eq!(clip.name, "00000.M2TS");
    assert_eq!(clip.display_name, "00000.M2TS");
    assert_eq!(clip.angle_index, 0);
    assert_eq!(seconds(clip.relative_time_in).to_bits(), 0.0_f64.to_bits());
    assert_eq!(seconds(clip.length).to_bits(), 100.0_f64.to_bits());
    assert_eq!(seconds(clip.file_ticks).to_bits(), 1.0_f64.to_bits());
    assert_eq!(clip.payload_bytes, 300);
    assert_eq!(clip.packet_count, 6);
    assert_eq!(seconds(clip.packet_ticks).to_bits(), 4.0_f64.to_bits());
    assert_eq!(clip.packet_size(), 1152);
    assert_eq!(clip.packet_bit_rate(), 2304);

    // The whole-file per-stream tallies, PID-ordered.
    assert_eq!(clip.streams.len(), 2);
    let video_tally = clip.streams.first().unwrap();
    assert_eq!(video_tally.pid, Pid::new(0x1011));
    assert_eq!((video_tally.payload_bytes, video_tally.packet_count), (200, 3));
    let audio_tally = clip.streams.get(1).unwrap();
    assert_eq!(audio_tally.pid, Pid::new(0x1100));
    assert_eq!((audio_tally.payload_bytes, audio_tally.packet_count), (100, 1));

    // The playlist totals derive from the packet tallies.
    assert_eq!(pl.angle_count, 0);
    assert_eq!(pl.total_packet_size(), 1152);
    assert_eq!(pl.total_angle_packet_size(), 1152);
    assert_eq!(pl.total_bit_rate(), 92); // 1152 × 8 / 100 s
    assert!(pl.angle_totals().is_empty());
}

#[test]
fn open_codecs_mode_reads_codec_detail_but_not_bitrate() {
    // The same scannable disc as the full-scan test: the video PID carries an
    // SPS (so the quick pass can parse the encoding profile), and a full scan
    // measures a non-zero rate. `Codecs` mode must run only the quick pass —
    // codec detail present, every measurement still zero.
    let clip =
        clpi(&[(0x1011, 0x1B, [0x62, 0x30, 0, 0]), (0x1100, 0x81, [0x61, b'e', b'n', b'g'])]);
    let play = mpls("00000", 0, 4_500_000, &[]); // 100 s
    let mut m2ts = packet(0, true, &pat_payload(0x0100));
    m2ts.extend(packet(0x0100, true, &pmt_payload(&[(0x1B, 0x1011), (0x81, 0x1100)])));
    m2ts.extend(packet(0x1100, true, &pes_pts(0xC0, 90_000, &[0xBB_u8; 100])));
    m2ts.extend(packet(0x1011, true, &pes_dts(0xE0, 90_000, 90_000, &sps_payload())));
    m2ts.extend(packet(0x1011, true, &pes_dts(0xE0, 180_000, 180_000, &sps_payload())));
    m2ts.extend(packet(0x1011, true, &pes_dts(0xE0, 270_000, 270_000, &sps_payload())));
    let disc = TempDisc::build(
        &[],
        &[
            ("BDMV/PLAYLIST/00000.mpls", play),
            ("BDMV/CLIPINF/00000.clpi", clip),
            ("BDMV/STREAM/00000.m2ts", m2ts),
        ],
    );

    // Full scan (the baseline): the quick pass gives the profile, the full
    // pass gives the measured rate + clip tallies.
    let full = disc.open_scanned().expect("full scan");
    let full_pl = full.playlists.first().unwrap();
    let full_video = full_pl.streams.first().unwrap();
    assert!(full_video.description.contains("High Profile 4.1"));
    assert_eq!(full_video.bitrate, 400);
    assert_eq!(full_pl.total_packet_size(), 1152);

    // Metadata mode reads NO packets, so the profile — which only the packet
    // scan parses from the SPS — is absent (the description keeps its plain
    // clip-info form). This is what makes `scans_packets()` matter.
    let meta = disc.open().expect("metadata scan");
    let meta_video = meta.playlists.first().unwrap().streams.first().unwrap();
    assert!(
        !meta_video.description.contains("High Profile 4.1"),
        "metadata mode runs no packet scan, so no scanned codec detail"
    );
    assert_eq!(meta_video.bitrate, 0);

    // Codecs mode: identical codec detail (the quick pass ran), but no full
    // pass — the bitrate and every clip/playlist tally stay zero.
    let codecs = disc.open_codecs().expect("codec-only scan");
    let pl = codecs.playlists.first().unwrap();
    let video = pl.streams.first().unwrap();
    assert!(
        video.description.contains("High Profile 4.1"),
        "the quick pass fills the encoding profile"
    );
    assert_eq!(video.bitrate, 0, "no full pass ⇒ no measured bitrate");
    assert_eq!(video.active_bitrate, 0);
    assert_eq!(pl.total_packet_size(), 0, "no clip payload measured");
    assert_eq!(pl.total_bit_rate(), 0);
    let clip = pl.clips.first().unwrap();
    assert_eq!(clip.packet_count, 0);
    assert_eq!(clip.payload_bytes, 0);
}

#[test]
fn open_scanned_reads_the_interleaved_source_and_presents_the_dependent_view() {
    // The plain m2ts is a stub; the interleaved .ssif holds the real
    // packets, including the MVC dependent view the clip info omits.
    let clip = clpi(&[(0x1011, 0x1B, [0x62, 0x30, 0, 0])]);
    let play = mpls("00000", 0, 4_500_000, &[]);
    let mut ssif = packet(0, true, &pat_payload(0x0100));
    ssif.extend(packet(0x0100, true, &pmt_payload(&[(0x1B, 0x1011), (0x20, 0x1012)])));
    ssif.extend(packet(0x1011, true, &pes_dts(0xE0, 90_000, 90_000, &sps_payload())));
    ssif.extend(packet(0x1012, true, &pes_pts(0xE1, 90_000, &[0xCC; 50])));
    ssif.extend(packet(0x1011, true, &pes_dts(0xE0, 180_000, 180_000, &sps_payload())));
    ssif.extend(packet(0x1011, true, &pes_dts(0xE0, 270_000, 270_000, &sps_payload())));
    let disc = TempDisc::build(
        &[],
        &[
            ("BDMV/PLAYLIST/00000.mpls", play),
            ("BDMV/CLIPINF/00000.clpi", clip),
            ("BDMV/STREAM/00000.m2ts", vec![0_u8; 192]),
            ("BDMV/STREAM/SSIF/00000.ssif", ssif),
        ],
    );
    let bd = disc.open_scanned().expect("interleaved scan");
    let pl = bd.playlists.first().unwrap();

    // The dependent view the clip info omits is presented as an SSIF-only
    // row with its demuxed rate — never hidden, and excluded from the
    // presented .
    assert_eq!(pl.streams.len(), 2);
    assert_eq!(pl.stream_count, 1);
    let mvc_row = pl.streams.iter().find(|s| s.pid == Pid::new(0x1012)).unwrap();
    assert_eq!(mvc_row.stream_type.name(), "MVC_VIDEO");
    assert_eq!(mvc_row.codec_name, "MPEG-4 MVC Video");
    assert_eq!(mvc_row.description, "");
    assert!(mvc_row.ssif_only && !mvc_row.is_hidden);
    assert!(mvc_row.bitrate > 0, "the dependent view carries its measured rate");
    let clip = pl.clips.first().unwrap();
    assert_eq!(clip.name, "00000.M2TS");
    assert_eq!(clip.display_name, "00000.SSIF");
    assert!(clip.streams.iter().any(|tally| tally.pid == Pid::new(0x1012)));
    // The base view was demuxed from the interleaved source.
    let base = clip.streams.iter().find(|t| t.pid == Pid::new(0x1011)).unwrap();
    assert_eq!((base.payload_bytes, base.packet_count), (200, 3));
}

#[test]
fn open_rejects_a_folder_without_bdmv() {
    let disc = TempDisc::build(&["random"], &[]);
    assert_eq!(disc.open().unwrap_err().message(), "unable to locate BD structure");
}

#[test]
fn open_rejects_bdmv_missing_clipinf_or_playlist() {
    // PLAYLIST present, CLIPINF absent.
    let disc = TempDisc::build(&["BDMV/PLAYLIST"], &[]);
    assert_eq!(disc.open().unwrap_err().message(), "unable to locate BD structure");
}

/// Opens the disc with the scan rooted at `rel` under the fixture root.
fn open_at(disc: &TempDisc, rel: &str) -> Result<BdRom, BdError> {
    let mut root = disc.root.clone();
    let mut chain = Vec::new();
    let mut path = rel;
    loop {
        chain.push(root.at(path).entry());
        if path.is_empty() {
            break;
        }
        path = path.rsplit_once('/').map_or("", |(above, _)| above);
    }
    BdRom::open(&Render, &Codecs, &chain, ScanMode::Metadata)
}

#[test]
fn open_accepts_the_bdmv_directory_itself() {
    let disc = TempDisc::build(&["BDMV/PLAYLIST", "BDMV/CLIPINF"], &[]);
    let bd = open_at(&disc, "BDMV").expect("scan from the BDMV directory");
    // The walk resolved the real disc root, so the volume label is its name.
    assert!(bd.volume_label.starts_with("bdinfo-rs-disc-"));
}

#[test]
fn open_accepts_a_directory_inside_bdmv() {
    let disc = TempDisc::build(&["BDMV/PLAYLIST", "BDMV/CLIPINF"], &[]);
    let bd = open_at(&disc, "BDMV/PLAYLIST").expect("scan from inside BDMV");
    assert!(bd.volume_label.starts_with("bdinfo-rs-disc-"));
}

#[test]
fn open_scans_a_disc_root_itself_named_bdmv() {
    // The input is named BDMV but is NOT a scannable BDMV (no CLIPINF/
    // PLAYLIST children) — it is a disc root that happens to carry the name.
    // The validated walk skips it and the child lookup scans it as the root.
    let disc = TempDisc::build(&["BDMV/BDMV/PLAYLIST", "BDMV/BDMV/CLIPINF"], &[]);
    let bd = open_at(&disc, "BDMV").expect("scan a disc root named BDMV");
    assert_eq!(bd.volume_label, "BDMV");
}

#[test]
fn a_stray_bdmv_ancestor_does_not_break_the_scan() {
    // A valid disc nested under a directory named BDMV: the stray ancestor
    // holds no CLIPINF/PLAYLIST, so the walk passes it by and the input is
    // scanned as the disc root (an unvalidated walk would commit to the
    // stray and abort).
    let disc = TempDisc::build(&["BDMV/disc/BDMV/PLAYLIST", "BDMV/disc/BDMV/CLIPINF"], &[]);
    let bd = open_at(&disc, "BDMV/disc").expect("scan under a stray BDMV ancestor");
    assert_eq!(bd.volume_label, "disc");
}

#[test]
fn a_stray_bdmv_ancestor_with_only_clipinf_does_not_win() {
    let disc = TempDisc::build(
        &["BDMV/CLIPINF", "BDMV/disc/BDMV/PLAYLIST", "BDMV/disc/BDMV/CLIPINF"],
        &[],
    );
    let bd = open_at(&disc, "BDMV/disc").expect("scan under a CLIPINF-only stray BDMV");
    assert_eq!(bd.volume_label, "disc");
}

#[test]
fn a_stray_bdmv_ancestor_with_only_playlist_does_not_win() {
    let disc = TempDisc::build(
        &["BDMV/PLAYLIST", "BDMV/disc/BDMV/PLAYLIST", "BDMV/disc/BDMV/CLIPINF"],
        &[],
    );
    let bd = open_at(&disc, "BDMV/disc").expect("scan under a PLAYLIST-only stray BDMV");
    assert_eq!(bd.volume_label, "disc");
}

/// A minimal [`BdDir`] fake for the walk's pathological arms: a fixed name,
/// a parent that is `None` or a clone of itself (an endless cycle), and a

/// A directory called `name` without children, whose listing may fail.
fn walk_dir(name: &str, fail_listing: bool) -> MockDir {
    let mut dir = MockDir::new(name, Vec::new(), Vec::new());
    dir.fail_dirs = fail_listing;
    dir
}

#[test]
fn walked_disc_root_survives_a_cyclic_parent_chain() {
    // A BDMV-named dir whose parent chain goes on and on: the bounded walk gives up, and
    // the scan then fails cleanly on the (empty) child lookup.
    let chain: Vec<DirEntry> = (0..1000).map(|_| walk_dir("BDMV", false).entry()).collect();
    assert!(walked_disc_root(&chain).is_none());
    assert_eq!(
        BdRom::open(&Render, &Codecs, &chain, ScanMode::Metadata).unwrap_err().message(),
        "unable to locate BD structure"
    );
}

#[test]
fn the_walk_looks_no_further_up_than_sixty_four_ancestors() {
    let scannable = || {
        MockDir::new(
            "BDMV",
            vec![walk_dir("CLIPINF", false), walk_dir("PLAYLIST", false)],
            Vec::new(),
        )
        .entry()
    };
    let chain = |below: usize| -> Vec<DirEntry> {
        let mut out: Vec<DirEntry> = (0..below).map(|_| walk_dir("x", false).entry()).collect();
        out.push(scannable());
        out.push(walk_dir("disc", false).entry());
        out
    };
    assert_eq!(walked_disc_root(&chain(0)), Some(1));
    assert_eq!(walked_disc_root(&chain(64)), Some(65));
    assert_eq!(walked_disc_root(&chain(65)), None);
}

#[test]
fn walk_dir_fake_satisfies_the_full_seam() {
    // A directory without children: it lists nothing, and nothing is found in it.
    let dir = walk_dir("BDMV", false).entry();
    assert_eq!(dir.name, "BDMV");
    assert!(dir.files.as_ref().expect("files").is_empty());
    assert!(dir.dirs.as_ref().expect("directories").is_empty());
    assert_eq!(directory_size(&dir).expect("sizes"), (0, 0));
}

#[test]
fn walked_disc_root_treats_an_unreadable_candidate_as_not_scannable() {
    // The scannability probe is speculative: a BDMV-named input whose child
    // listing errors is skipped (the error is not propagated), and with no
    // parent the walk yields nothing.
    let dir = walk_dir("BDMV", true);
    assert!(walked_disc_root(&vec![dir.entry()]).is_none());
    assert!(walked_disc_root(&vec![dir.entry(), walk_dir("disc", false).entry()]).is_none());
}

#[test]
fn open_reports_a_playlist_referencing_a_missing_clip_file() {
    let play = mpls("00000", 0, 4_500_000, &[]);
    let disc = TempDisc::build(
        &["BDMV/CLIPINF"], // CLIPINF present but empty
        &[("BDMV/PLAYLIST/00000.mpls", play)],
    );
    assert_eq!(
        disc.open().unwrap_err().message(),
        "referenced missing clip file: 00000.CLPI"
    );
}

#[test]
fn open_propagates_a_malformed_clip_file() {
    let disc = TempDisc::build(
        &["BDMV/PLAYLIST"],
        &[("BDMV/CLIPINF/00000.clpi", b"XXXX0100junk".to_vec())],
    );
    assert_eq!(disc.open().unwrap_err().message(), "unknown file type: XXXX0100");
}

#[test]
fn open_propagates_a_malformed_playlist() {
    let disc = TempDisc::build(
        &["BDMV/CLIPINF"],
        &[("BDMV/PLAYLIST/00000.mpls", b"XXXXjunk".to_vec())],
    );
    assert_eq!(disc.open().unwrap_err().message(), "unknown file type: XXXXjunk");
}

#[test]
fn read_file_surfaces_io_errors() {
    let gone = FileEntry {
        name: "gone.bin".to_owned(),
        length: 3,
        content: Err(BdError::Io("no such file".to_owned())),
    };
    assert_eq!(read_file(&gone).unwrap_err().message(), "io error: no such file");
}

/// A complete, valid disc: two playlists, and every directory that sets a flag.
fn mock_disc() -> MockDir {
    let file = |name: &str, bytes: Vec<u8>| MockFile::new(name, bytes);
    let dir = MockDir::new;

    let clip0 =
        clpi(&[(0x1011, 0x1B, [0x63, 0x30, 0, 0]), (0x1100, 0x81, [0x61, b'e', b'n', b'g'])]);
    let clip1 = clpi(&[(0x1011, 0x1B, [0x62, 0x30, 0, 0])]);
    dir(
        "disc",
        vec![
            dir(
                "BDMV",
                vec![
                    dir(
                        "CLIPINF",
                        vec![],
                        vec![file("00000.clpi", clip0), file("00001.clpi", clip1)],
                    ),
                    dir(
                        "PLAYLIST",
                        vec![],
                        vec![
                            file(
                                "00000.mpls",
                                mpls("00000", 2_700_000, 4_500_000, &[(1, 0, 2_700_000)]),
                            ),
                            file("00001.mpls", mpls("00001", 0, 4_500_000, &[])),
                        ],
                    ),
                    dir(
                        "STREAM",
                        vec![dir("SSIF", vec![], vec![file("00000.ssif", vec![0; 10])])],
                        vec![file("00000.m2ts", vec![0; 100]), file("00001.m2ts", vec![0; 50])],
                    ),
                    dir(
                        "META",
                        vec![dir(
                            "DL",
                            vec![],
                            // a non-matching sibling so the title search's
                            // name filter exercises both outcomes
                            vec![
                                file("thumb.jpg", vec![0xFF]),
                                file("bdmt_eng.xml", title_xml("Movie")),
                            ],
                        )],
                        vec![],
                    ),
                    dir("BDJO", vec![], vec![file("00000.bdjo", vec![b'x'])]),
                ],
                vec![file("index.bdmv", b"INDX0300".to_vec())],
            ),
            dir("SNP", vec![], vec![file("clip.mnv", vec![b'x'])]),
            dir("BDSVM", vec![], vec![]),
        ],
        vec![],
    )
}

#[test]
fn directory_size_keeps_an_uppercase_ssif_out_of_the_disc_size() {
    // The interleaved split folds case: a disc naming its file `00000.SSIF` must reach the
    // same two totals as the lowercase spelling.
    let file = |name: &str, len: usize| MockFile::new(name, vec![0; len]);
    let dir = MockDir::new(
        "SSIF",
        Vec::new(),
        vec![file("00000.SSIF", 10), file("00001.ssif", 20), file("00000.m2ts", 5)],
    );
    assert_eq!(directory_size(&dir.entry()).expect("mock listing is infallible"), (5, 30));
}

/// The disc with the `n`th of its listings and files made to fail, where it has so many.
fn tripped(dir: &MockDir, n: &mut usize) -> MockDir {
    let mut out = dir.clone();
    let hit = |n: &mut usize| {
        let here = *n == 0;
        *n = n.wrapping_sub(1);
        here
    };
    out.fail_dirs = hit(n);
    out.fail_files = hit(n);
    for file in &mut out.files {
        if hit(n) {
            file.fail_read_at = Some(0);
        }
    }
    out.dirs = dir.dirs.iter().map(|d| tripped(d, n)).collect();
    out
}

/// How many listings and files a disc has.
fn trip_points(dir: &MockDir) -> usize {
    2 + dir.files.len() + dir.dirs.iter().map(trip_points).sum::<usize>()
}

#[test]
fn open_propagates_io_errors_at_every_step() {
    // A clean scan, packets and all, and how many listings and contents there are to fail.
    let disc = mock_disc();
    let bd = disc.open(ScanMode::Full).expect("mock disc scans clean");
    assert_eq!(bd.playlists.len(), 2); // exercises the playlist sort comparator
    assert!(bd.is_uhd && bd.is_3d && bd.is_bd_plus && bd.is_bd_java && bd.is_psp);
    let total = trip_points(&disc);
    assert!(total > 12, "expected many io ops, got {total}");

    // Failing each of them in turn surfaces as an error, unless the scan never asks for it:
    // then it is identical to the clean one.
    let mut unasked = 0_usize;
    for fail_at in 0..total {
        let mut n = fail_at;
        match tripped(&disc, &mut n).open(ScanMode::Full) {
            Ok(scanned) => {
                assert_eq!(scanned, bd, "io failure at op {fail_at} altered the scan");
                unasked = unasked.saturating_add(1);
            }
            Err(e) => assert!(e.message().starts_with("io error: ")),
        }
    }
    // What a scan never asks for are the files that are counted but not read: those of BDJO
    // and SNP, the thumbnail, and the stream file that is read through its interleaved
    // source.
    assert_eq!(unasked, 4);

    // The one failure that a scan asks for and passes over is that of the AACS probe: a root
    // whose listing fails has no key file.
    let mut fail_open = 0_usize;
    for fail_at in 0..total {
        let mut n = fail_at;
        let failing = tripped(&disc, &mut n);
        if failing.fail_dirs && failing.name == disc.name {
            assert!(!has_aacs_key_file(&failing.entry()));
            assert!(!detect_aacs_encryption(&failing.entry(), None));
            fail_open = fail_open.saturating_add(1);
        }
    }
    assert_eq!(fail_open, 1);
}

#[test]
fn open_resilient_records_an_io_failure_at_every_step() {
    // The resilient counterpart of `open_propagates_io_errors_at_every_step`: failing each
    // listing and each content in turn either aborts (the fatal structure-locating block) or
    // completes with that failure recorded, and never silently swallows it.
    let disc = mock_disc();
    let clean = disc.open_resilient(ScanMode::Full).expect("mock disc scans");
    assert!(clean.errors.is_empty());
    let total = trip_points(&disc);

    let (mut absorbed, mut unasked, mut fatal) = (0_usize, 0_usize, 0_usize);
    for fail_at in 0..total {
        let mut n = fail_at;
        match tripped(&disc, &mut n).open_resilient(ScanMode::Full) {
            Ok(report) if report.errors.is_empty() => {
                assert_eq!(
                    report.bdrom, clean.bdrom,
                    "io failure at op {fail_at} was swallowed and altered the scan"
                );
                unasked = unasked.saturating_add(1);
            }
            Ok(_) => absorbed = absorbed.saturating_add(1),
            Err(e) => {
                assert!(e.message().starts_with("io error: "));
                fatal = fatal.saturating_add(1);
            }
        }
    }
    // Most are isolated: only the subdirectories of the root and of BDMV are fatal.
    assert!(absorbed > total.saturating_div(2), "absorbed {absorbed} of {total}");
    assert_eq!(fatal, 2);
    // The files that are counted but not read.
    assert_eq!(unasked, 4);
    assert_eq!(absorbed, total - 6);
}

#[test]
fn a_counting_reader_heartbeats_before_every_read_and_advances_after() {
    // Two reads: one serving bytes, one at the end of the file. Each is bracketed by a
    // heartbeat (same count) and an advance, so the last event before a blocking read names
    // the file being read.
    let store = Store::new(BTreeMap::new());
    let mut progress = Progress::new(5);
    let mut playlists =
        vec![TsPlaylistFile::scan("00000.mpls", &mpls("00000", 0, 4_500_000, &[])).unwrap()];
    let mut file = TsStreamFile::new("A.M2TS");
    let mut reader = MemSource::new(vec![0_u8; 5], 8, None);
    file.scan_counted(
        &Codecs,
        &mut reader,
        &mut playlists,
        true,
        "A.M2TS",
        &mut progress,
        &mut store.watcher(),
    )
    .expect("both reads succeed");
    assert_eq!(file.size, 5);
    assert_eq!(
        store.events(),
        [
            ("A.M2TS".to_owned(), 0, 5),
            ("A.M2TS".to_owned(), 5, 5),
            ("A.M2TS".to_owned(), 5, 5),
            ("A.M2TS".to_owned(), 5, 5),
        ]
    );
}

#[test]
fn scan_stream_files_keeps_or_drops_a_partial_file_per_mode_and_switch() {
    // A STREAM dir with one `*.m2ts` whose reader fails after a successful
    // open — a read error before any packet demuxes. The three outcomes of
    // the keep/drop seam, over the same damage:
    let mut m2ts = MockFile::new("00000.m2ts", vec![0_u8; 200]);
    m2ts.fail_read_at = Some(0);
    let stream_dir = MockDir::new("STREAM", Vec::new(), vec![m2ts]);
    // A non-empty playlist list so the scan proceeds past its empty-input guard.
    let mut playlists =
        vec![TsPlaylistFile::scan("00000.mpls", &mpls("00000", 0, 4_500_000, &[])).unwrap()];
    let entry = stream_dir.entry();
    let run = |playlists: &mut Vec<TsPlaylistFile>, sink: &mut Sink, keep_partial: bool| {
        let store = stream_dir.store();
        let mut progress = Progress::new(200);
        let scanned = scan_stream_files(
            &Codecs,
            &store,
            Some(&entry),
            None,
            None,
            playlists,
            sink,
            keep_partial,
            false,
            &mut progress,
            &mut store.watcher(),
        );
        // The failed file still consumes its progress budget (the snap to
        // the file boundary) whether or not its partial state is kept.
        assert_eq!(progress.done, 200, "the failed file's bytes are snapped past");
        scanned
    };
    // Strict mode propagates the read failure, partial state and all —
    // `keep_partial` changes nothing there.
    let strict = run(&mut playlists, &mut Sink::strict(), true);
    assert!(strict.is_err());
    // Resilient mode records the failure either way; the switch decides
    // whether the partial file (here empty — the read failed before any
    // packet) still lands in the returned map.
    let mut sink = Sink::resilient();
    let kept = run(&mut playlists, &mut sink, true).expect("resilient scan continues");
    let errors = sink.into_errors();
    let partial = kept.get("00000.M2TS").expect("the partial file is kept");
    assert!(partial.streams.is_empty(), "no packet demuxed before the failing read");
    assert_eq!(errors.len(), 1);
    let recorded = errors.first().expect("one recorded error");
    assert_eq!(recorded.stage, ScanStage::StreamFile);
    assert_eq!(recorded.file, "00000.m2ts");
    // `keep_partial: false` drops the file wholesale — the pre-retention
    // resilient outcome.
    let mut sink = Sink::resilient();
    let dropped = run(&mut playlists, &mut sink, false).expect("resilient scan continues");
    assert_eq!(dropped.len(), 0);
    assert_eq!(sink.into_errors().len(), 1);
}

/// A demuxable `*.m2ts` longer than one read chunk
/// (`DATA_SIZE`): PAT, a PMT declaring
/// `streams`, AVC video frames (PID 0x1011) timestamped at `head_seconds`
/// inside the first chunk, null-PID padding across the chunk boundary,
/// then frames at `tail_seconds`. A reader that dies at the boundary hands
/// the demux every head frame and none of the tail (a mid-chunk death
/// voids the whole in-flight chunk — `fill_buffer` propagates before
/// demuxing it).
fn two_chunk_m2ts(
    streams: &[(u8, u16)],
    head_seconds: &[u64],
    tail_seconds: &[u64],
) -> Vec<u8> {
    let frame = |s: u64| {
        let ticks = s.wrapping_mul(90_000);
        packet(0x1011, true, &pes_dts(0xE0, ticks, ticks, &sps_payload()))
    };
    let mut m2ts = packet(0, true, &pat_payload(0x0100));
    m2ts.extend(packet(0x0100, true, &pmt_payload(streams)));
    for &s in head_seconds {
        m2ts.extend(frame(s));
    }
    while m2ts.len() <= DATA_SIZE {
        m2ts.extend(packet(0x1FFF, false, &[0_u8; 184]));
    }
    for &s in tail_seconds {
        m2ts.extend(frame(s));
    }
    m2ts
}

/// One clip of a [`tripping_disc_of`] tree: `stem` names the `{stem}.clpi`
/// / `{stem}.m2ts` pair carrying `clip` and `m2ts` bytes, and the stream
/// file's reader fails once `serve` bytes have been read (`None` =
/// healthy).
struct MockClip {
    stem: &'static str,
    clip: Vec<u8>,
    m2ts: Vec<u8>,
    serve: Option<usize>,
}

/// A mock disc over `clips` carrying one `*.mpls` per `playlists` entry:
/// entry `(stem, items)` becomes `{stem}.mpls`, playing each named clip
/// stem as its own 100 s play item, with chapter marks at 0 s and 45 s of
/// the first item. Every metadata file is intact — a clip's own `serve` is
/// the only damage on the disc.
fn tripping_disc_of(clips: &[MockClip], playlists: &[(&str, &[&str])]) -> MockDir {
    let file = |name: &str, bytes: Vec<u8>, fail_read_at: Option<usize>| MockFile {
        name: name.to_owned(),
        bytes,
        fail_read_at,
    };
    let dir = MockDir::new;
    let clip_info: Vec<MockFile> = clips
        .iter()
        .map(|clip| file(&format!("{}.clpi", clip.stem), clip.clip.clone(), None))
        .collect();
    let streams: Vec<MockFile> = clips
        .iter()
        .map(|clip| file(&format!("{}.m2ts", clip.stem), clip.m2ts.clone(), clip.serve))
        .collect();
    let playlist_files: Vec<MockFile> = playlists
        .iter()
        .map(|&(stem, items)| {
            file(
                &format!("{stem}.mpls"),
                mpls_items(items, 0, 4_500_000, &[], &[], &[(1, 0, 0), (1, 0, 2_025_000)]),
                None,
            )
        })
        .collect();
    dir(
        "disc",
        vec![dir(
            "BDMV",
            vec![
                dir("CLIPINF", vec![], clip_info),
                dir("PLAYLIST", vec![], playlist_files),
                dir("STREAM", vec![], streams),
            ],
            vec![],
        )],
        vec![],
    )
}

/// A minimal one-playlist mock disc around `m2ts`: one 100 s play item
/// (`00000.M2TS`, clip info `clip`) with chapter marks at 0 s and 45 s.
/// The stream file's reader fails once `serve` bytes have been read
/// (`None` = healthy); every other file is intact.
fn tripping_disc_with(clip: Vec<u8>, m2ts: Vec<u8>, serve: Option<usize>) -> MockDir {
    tripping_disc_of(&[MockClip { stem: "00000", clip, m2ts, serve }], &[("00000", &["00000"])])
}

/// [`tripping_disc_with`] over a video-only clip (AVC on PID 0x1011).
fn tripping_disc(m2ts: Vec<u8>, serve: Option<usize>) -> MockDir {
    tripping_disc_with(clpi(&[(0x1011, 0x1B, [0x62, 0x30, 0, 0])]), m2ts, serve)
}

#[test]
fn open_resilient_keeps_a_mid_file_partial_scan_by_default() {
    let m2ts = two_chunk_m2ts(&[(0x1B, 0x1011)], &[1, 2, 3], &[46, 47, 48]);

    // Healthy control: the same tree scans clean and both chapters carry
    // measured rates — so the damaged scan's zero second row below is the
    // trip's doing, not the fixture's.
    let healthy = tripping_disc(m2ts.clone(), None).open_resilient(ScanMode::Full)
        .expect("healthy scan");
    assert!(healthy.errors.is_empty());
    let control = healthy.bdrom.playlists.first().unwrap();
    assert!(bits(control.chapters.first().unwrap().avg_rate) > 0.0);
    assert!(bits(control.chapters.get(1).unwrap().avg_rate) > 0.0);

    // Tripped at the chunk boundary: the head frames demuxed, the rest died.
    let report = tripping_disc(m2ts, Some(DATA_SIZE)).open_resilient(ScanMode::Full)
        .expect("resilient scan continues");
    // The full pass trips; the quick pass stops inside the served first
    // chunk once the lone video stream's codec detail initialises, so it
    // never reaches the failing read.
    assert_eq!(report.errors.len(), 1);
    let recorded = report.errors.first().unwrap();
    assert_eq!((recorded.stage, recorded.file.as_str()), (ScanStage::StreamFile, "00000.m2ts"));

    let pl = report.bdrom.playlists.first().unwrap();
    // The kept partial file fills the chapter rows up to the death point:
    // the first chapter carries its measured rate, the post-death chapter
    // is a zero row with its mark's own time and length.
    assert_eq!(pl.chapters.len(), 2);
    let first = pl.chapters.first().unwrap();
    assert_eq!(seconds(first.time_in).to_bits(), 0.0_f64.to_bits());
    assert_eq!(seconds(first.length).to_bits(), 45.0_f64.to_bits());
    assert!(bits(first.avg_rate) > 0.0);
    let second = pl.chapters.get(1).unwrap();
    assert_eq!(seconds(second.time_in).to_bits(), 45.0_f64.to_bits());
    assert_eq!(seconds(second.length).to_bits(), 55.0_f64.to_bits());
    assert_eq!(bits(second.avg_rate).to_bits(), 0.0_f64.to_bits());
    // The stream-diagnostics material survives too: the clip row carries
    // the partial demuxed seconds and per-stream tallies.
    let clip = pl.clips.first().unwrap();
    assert!(clip.file_ticks > 0);
    let tally = clip.streams.first().expect("the partial file's video tally");
    assert!(tally.payload_bytes > 0);
    // The quick pass's codec detail is intact on the presented stream.
    assert!(pl.streams.first().unwrap().description.contains("High Profile 4.1"));
}

#[test]
fn keep_partial_off_drops_the_partial_scan_wholesale() {
    let m2ts = two_chunk_m2ts(&[(0x1B, 0x1011)], &[1, 2, 3], &[46, 47, 48]);
    let kept =
        tripping_disc(m2ts.clone(), Some(DATA_SIZE)).open_resilient(ScanMode::Full)
            .expect("resilient scan continues");
    let off = tripping_disc(m2ts, Some(DATA_SIZE)).open_resilient_with(ScanMode::Full, ScanOptions { keep_partial: false }, None)
    .expect("resilient scan continues");

    // Same failure recorded either way; the switch only decides retention.
    assert_eq!(off.errors.len(), kept.errors.len());
    let pl = off.bdrom.playlists.first().unwrap();
    let kept_pl = kept.bdrom.playlists.first().unwrap();
    // The dropped file leaves the chapter rows and diagnostics all zero…
    assert_eq!(pl.chapters.len(), 2);
    assert_eq!(bits(pl.chapters.first().unwrap().avg_rate).to_bits(), 0.0_f64.to_bits());
    let clip = pl.clips.first().unwrap();
    assert!(clip.streams.is_empty());
    assert_eq!(seconds(clip.file_ticks).to_bits(), 0.0_f64.to_bits());
    // …while the in-place playlist tallies the demux flushed before dying
    // still count, exactly as they do with retention on: dropping the file
    // preserves the partial-size-next-to-zero-chapters inconsistency by
    // design (the switch's OFF contract), it does not undo the demux.
    let kept_clip = kept_pl.clips.first().unwrap();
    assert!(clip.packet_count > 0);
    assert_eq!(clip.packet_count, kept_clip.packet_count);
    assert_eq!(clip.payload_bytes, kept_clip.payload_bytes);
}

#[test]
fn a_quick_pass_partial_keeps_its_initialised_codec_detail() {
    // The PMT declares video AND audio, but no audio PES ever arrives, so
    // the quick pass — unlike the video-only fixtures above, where it
    // stops inside the first chunk — keeps reading for the audio codec
    // detail and trips at the boundary exactly like the full pass: one
    // recorded failure per pass. Its partial file already parsed the
    // video SPS, and that detail reaches the presented stream only
    // because the partial quick file is kept.
    let clip =
        clpi(&[(0x1011, 0x1B, [0x62, 0x30, 0, 0]), (0x1100, 0x81, [0x61, b'e', b'n', b'g'])]);
    let m2ts = two_chunk_m2ts(&[(0x1B, 0x1011), (0x81, 0x1100)], &[1, 2, 3], &[46, 47, 48]);
    let report = tripping_disc_with(clip.clone(), m2ts.clone(), Some(DATA_SIZE)).open_resilient(ScanMode::Full)
    .expect("resilient scan continues");
    assert_eq!(report.errors.len(), 2);
    let pl = report.bdrom.playlists.first().unwrap();
    assert!(pl.streams.first().unwrap().description.contains("High Profile 4.1"));
    assert!(bits(pl.chapters.first().unwrap().avg_rate) > 0.0);

    // Switched off, the same damage loses the quick pass's codec detail
    // with everything else: the presented video keeps only its clip-info
    // description.
    let off = tripping_disc_with(clip, m2ts, Some(DATA_SIZE)).open_resilient_with(ScanMode::Full, ScanOptions { keep_partial: false }, None)
    .expect("resilient scan continues");
    assert_eq!(off.errors.len(), 2);
    let off_pl = off.bdrom.playlists.first().unwrap();
    assert!(!off_pl.streams.first().unwrap().description.contains("High Profile 4.1"));
}

#[test]
fn open_resilient_records_one_warning_per_pass_on_head_damage() {
    // A reader that dies on its first byte: the quick pass and the full
    // pass each open the file and each trip, so ONE failure is recorded
    // per pass — two `WARNING` lines for the same file, deliberately
    // undeduplicated.
    let report =
        tripping_disc(vec![0_u8; 400], Some(0)).open_resilient(ScanMode::Full)
            .expect("resilient scan continues");
    assert_eq!(report.errors.len(), 2);
    for recorded in &report.errors {
        assert_eq!(
            (recorded.stage, recorded.file.as_str()),
            (ScanStage::StreamFile, "00000.m2ts")
        );
    }
    // Nothing was demuxed, so every measurement is zero — but the open
    // succeeded and the structure is fully listed.
    let pl = report.bdrom.playlists.first().unwrap();
    assert_eq!(pl.chapters.len(), 2);
    assert_eq!(bits(pl.chapters.first().unwrap().avg_rate).to_bits(), 0.0_f64.to_bits());
    assert!(pl.clips.first().unwrap().streams.is_empty());
}

#[test]
fn open_strict_aborts_wholesale_on_a_stream_read_error() {
    // The strict open propagates the first read failure — no partial
    // state, no report — whatever `keep_partial` would have said.
    assert!(tripping_disc(vec![0_u8; 400], Some(0)).open(ScanMode::Full).is_err());
}

#[test]
fn a_tripped_reader_yields_a_total_scan_with_one_chapter_row_per_mark() {
    // Tripping the stream reader at any byte never panics or hangs the resilient scan, and
    // the chapter table keeps its shape: one row per mark, each with its mark's own time and
    // length.
    for serve in [1, 192, 16_384, 20_000, DATA_SIZE - 1, DATA_SIZE + 1, DATA_SIZE + 9_999] {
        let m2ts = two_chunk_m2ts(&[(0x1B, 0x1011)], &[1, 2, 3], &[46, 47]);
        let report = tripping_disc(m2ts, Some(serve))
            .open_resilient(ScanMode::Full)
            .expect("the resilient scan is total");
        let pl = report.bdrom.playlists.first().unwrap();
        assert_eq!(pl.chapters.len(), 2);
        let first = pl.chapters.first().unwrap();
        assert_eq!(seconds(first.time_in).to_bits(), 0.0_f64.to_bits());
        assert_eq!(seconds(first.length).to_bits(), 45.0_f64.to_bits());
        let second = pl.chapters.get(1).unwrap();
        assert_eq!(seconds(second.time_in).to_bits(), 45.0_f64.to_bits());
        assert_eq!(seconds(second.length).to_bits(), 55.0_f64.to_bits());
        for row in &pl.chapters {
            assert!(row.avg_rate.ticks > 0 && row.max_1sec_rate.ticks > 0);
        }
    }
}

/// The summary of a playlist.
fn playlist<'a>(report: &'a ScanReport, name: &str) -> &'a PlaylistSummary {
    report
        .bdrom
        .playlists
        .iter()
        .find(|summary| summary.name == name)
        .expect("every playlist is summarised")
}

#[test]
fn a_narrowed_selection_leaves_the_defective_playlists_rows_unchanged() {
    // Three playlists over DISTINCT clips — no clip is shared, so nothing
    // the demux writes in place reaches another playlist — and the first
    // clip's reader dies at the read-chunk boundary.
    let video = || clpi(&[(0x1011, 0x1B, [0x62, 0x30, 0, 0])]);
    let m2ts = || two_chunk_m2ts(&[(0x1B, 0x1011)], &[1, 2, 3], &[46, 47, 48]);
    let disc = tripping_disc_of(
        &[
            MockClip { stem: "00000", clip: video(), m2ts: m2ts(), serve: Some(DATA_SIZE) },
            MockClip { stem: "00001", clip: video(), m2ts: m2ts(), serve: None },
            MockClip { stem: "00002", clip: video(), m2ts: m2ts(), serve: None },
        ],
        &[("00000", &["00000"]), ("00001", &["00001"]), ("00002", &["00002"])],
    );
    let scan = |selection: Option<&Vec<String>>| {
        disc.open_resilient_with(ScanMode::Full, ScanOptions::default(), selection)
            .expect("resilient scan continues")
    };
    let selection =
        |names: &[&str]| -> Vec<String> { names.iter().map(|name| (*name).to_owned()).collect() };
    // The same damaged disc opened three ways: no selection at all, a
    // selection naming every clip, and a true subset that keeps the
    // defective playlist and one other while deselecting the third.
    let whole = scan(None);
    let every = scan(Some(&selection(&["00000.M2TS", "00001.M2TS", "00002.M2TS"])));
    let subset = scan(Some(&selection(&["00000.M2TS", "00001.M2TS"])));

    // The defective playlist is measured-then-damaged, not merely absent:
    // chapter 1 carries the head frames' rate, chapter 2 is the zero row
    // the death at the boundary leaves behind.
    let defective = playlist(&whole, "00000.MPLS");
    assert!(bits(defective.chapters.first().unwrap().avg_rate) > 0.0);
    assert_eq!(bits(defective.chapters.get(1).unwrap().avg_rate).to_bits(), 0.0_f64.to_bits());
    assert!(defective.clips.first().unwrap().payload_bytes > 0);

    // The three-way assertion: a selected playlist's own rows are a pure
    // function of its own clips, so narrowing the selection changes
    // nothing about them — chapter rows, FILES rows, presented streams,
    // and the playlist totals are identical across all three opens…
    assert_eq!(playlist(&every, "00000.MPLS"), defective);
    assert_eq!(playlist(&subset, "00000.MPLS"), defective);
    // …and so is the failure the damage records.
    for report in [&whole, &every, &subset] {
        assert_eq!(report.errors.len(), 1);
        let recorded = report.errors.first().unwrap();
        assert_eq!(
            (recorded.stage, recorded.file.as_str()),
            (ScanStage::StreamFile, "00000.m2ts")
        );
    }

    // What the narrowing DOES change, so the assertion above is over a
    // genuinely narrowed scan rather than a selection the scan ignored:
    // the deselected third playlist is never read and keeps only its
    // metadata, while the second selected one measures exactly as it does
    // in the two full opens.
    let third = playlist(&whole, "00002.MPLS");
    assert!(bits(third.chapters.first().unwrap().avg_rate) > 0.0);
    assert_eq!(playlist(&every, "00002.MPLS"), third);
    let deselected = playlist(&subset, "00002.MPLS");
    assert_eq!(bits(deselected.chapters.first().unwrap().avg_rate).to_bits(), 0.0_f64.to_bits());
    assert!(deselected.clips.first().unwrap().streams.is_empty());
    assert_eq!(playlist(&subset, "00001.MPLS"), playlist(&whole, "00001.MPLS"));
}

#[test]
fn an_earlier_clip_without_diagnostics_shifts_the_chapter_rows_past_the_boundary() {
    // A two-clip playlist (100 s per clip, 200 s total; chapter marks at
    // 0 s and 45 s of the first clip) where one clip's reader dies on its
    // first byte — that clip contributes no diagnostics at all — and the
    // other carries frames at 1/2/3 s. Each diagnostics entry closes at
    // the NEXT frame's timestamp, so the surviving clip contributes two
    // 100-byte entries, at clip seconds 2 and 3. Which of the two clips is
    // damaged decides the chapter table's shape.
    let video = || clpi(&[(0x1011, 0x1B, [0x62, 0x30, 0, 0])]);
    let frames = || two_chunk_m2ts(&[(0x1B, 0x1011)], &[1, 2, 3], &[]);
    let rows = |first: Option<usize>, second: Option<usize>| {
        let disc = tripping_disc_of(
            &[
                MockClip { stem: "00000", clip: video(), m2ts: frames(), serve: first },
                MockClip { stem: "00001", clip: video(), m2ts: frames(), serve: second },
            ],
            &[("00000", &["00000", "00001"])],
        );
        disc.open_resilient(ScanMode::Full)
            .expect("resilient scan continues")
            .bdrom
            .playlists
            .first()
            .unwrap()
            .chapters
            .clone()
    };

    // The EARLIER clip missing: the walk steps over it without advancing
    // the playlist position, so the surviving clip's first entry — at
    // playlist second 102, far past the 45 s mark — is what closes
    // chapter 1, and its second entry closes chapter 2. Both rows measure
    // an entry; the accounting is shifted across the boundary, not lost.
    let shifted = rows(Some(0), None);
    assert_eq!(shifted.len(), 2);
    let first = shifted.first().unwrap();
    assert!(bits(first.avg_rate) > 0.0);
    assert_eq!((first.max_frame_size as f64).to_bits(), 100.0_f64.to_bits());
    assert_eq!(seconds(first.max_frame_time).to_bits(), 102.0_f64.to_bits());
    let second = shifted.get(1).unwrap();
    assert!(bits(second.avg_rate) > 0.0);
    assert_eq!(seconds(second.max_frame_time).to_bits(), 103.0_f64.to_bits());

    // The mirror image — the LATER clip missing — is the collapse the
    // partial-retention tests pin instead: both entries land in chapter 1,
    // inside its own span, and chapter 2 is a zero row.
    let collapsed = rows(None, Some(0));
    let first = collapsed.first().unwrap();
    assert!(
        bits(first.avg_rate) > bits(shifted.first().unwrap().avg_rate),
        "chapter 1 absorbs both entries here, only the shifted one there"
    );
    assert_eq!(seconds(first.max_frame_time).to_bits(), 2.0_f64.to_bits());
    let second = collapsed.get(1).unwrap();
    assert_eq!(bits(second.avg_rate).to_bits(), 0.0_f64.to_bits());
    assert_eq!((second.max_frame_size as f64).to_bits(), 0.0_f64.to_bits());
}

/// The two-playlist / two-stream-file disc that the progress and cancellation tests scan.
fn cancel_fixture() -> TempDisc {
    TempDisc::build(
        &[],
        &[
            ("BDMV/PLAYLIST/00000.mpls", mpls("00000", 2_700_000, 4_500_000, &[])),
            ("BDMV/CLIPINF/00000.clpi", clpi(&[(0x1011, 0x1B, [0x63, 0x30, 0, 0])])),
            ("BDMV/STREAM/00000.m2ts", vec![0_u8; 1000]),
            ("BDMV/PLAYLIST/00001.mpls", mpls("00001", 2_700_000, 4_500_000, &[])),
            ("BDMV/CLIPINF/00001.clpi", clpi(&[(0x1011, 0x1B, [0x63, 0x30, 0, 0])])),
            ("BDMV/STREAM/00001.m2ts", vec![0_u8; 500]),
        ],
    )
}

/// A strict scan that reads its stream files from `store`.
fn scan_with(
    disc: &MockDir,
    store: &Store,
    mode: ScanMode,
    selection: Option<&Vec<String>>,
) -> Result<BdRom, BdError> {
    BdRom::open_with(
        &Render,
        &Codecs,
        store,
        &disc.chain(),
        mode,
        ScanOptions::default(),
        selection,
        &mut store.watcher(),
    )
}

/// A resilient scan that reads its stream files from `store`.
fn scan_resilient_with(
    disc: &MockDir,
    store: &Store,
    mode: ScanMode,
    selection: Option<&Vec<String>>,
) -> Result<ScanReport, BdError> {
    BdRom::open_resilient_with(
        &Render,
        &Codecs,
        store,
        &disc.chain(),
        mode,
        ScanOptions::default(),
        selection,
        &mut store.watcher(),
    )
}

/// Whether the counts of a trail never go back.
fn climbs(events: &[(String, u64, u64)]) -> bool {
    events.windows(2).all(|pair| pair[0].1 <= pair[1].1)
}

#[test]
fn open_with_reports_progress_and_narrows_the_scan_to_selected_files() {
    let disc = cancel_fixture().root;
    // Full scan: both files — the count runs 0→total over the full pass
    // (a `Full` open's quick codec-init pass is neither budgeted nor
    // reported).
    let store = disc.store();
    let bd = scan_with(&disc, &store, ScanMode::Full, None).expect("scan with progress");
    let events = store.events();
    assert_eq!(bd.playlists.len(), 2);
    assert!(!events.is_empty());
    // The pre-read heartbeat precedes the first byte: the pass's first
    // event reports a zero count, naming the file about to be read.
    assert_eq!(events.first().map(|(_, done, _)| *done), Some(0));
    assert!(events.iter().all(|(_, _, total)| *total == 1000 + 500));
    assert!(climbs(&events));
    assert_eq!(events.last().map(|(_, done, _)| *done), Some(1500));
    assert!(events.iter().any(|(file, _, _)| file == "00000.M2TS"));
    assert!(events.iter().any(|(file, _, _)| file == "00001.M2TS"));

    // A selection narrows the scan: only the named file is read (and
    // budgeted), the other playlist still summarises from metadata.
    let selected = vec!["00000.M2TS".to_owned()];
    let store = disc.store();
    let bd = scan_with(&disc, &store, ScanMode::Full, Some(&selected)).expect("scan the selection");
    let events = store.events();
    assert_eq!(bd.playlists.len(), 2);
    assert!(events.iter().all(|(file, _, total)| file == "00000.M2TS" && *total == 1000));
    assert_eq!(events.last().map(|(_, done, _)| *done), Some(1000));

    // The resilient variant takes the same extras and records nothing on
    // healthy media.
    let store = disc.store();
    let report = scan_resilient_with(&disc, &store, ScanMode::Full, Some(&selected))
        .expect("resilient scan with progress");
    assert!(report.errors.is_empty());
    assert_eq!(store.events().last().map(|(_, _, total)| *total), Some(1000));
    assert_eq!(report.bdrom, bd);

    // Without the packet scan the callback never fires.
    let store = disc.store();
    drop(scan_with(&disc, &store, ScanMode::Metadata, None).expect("metadata-only scan"));
    assert!(store.events().is_empty());
}

#[test]
fn a_codecs_open_reports_the_quick_pass_a_full_open_leaves_silent() {
    // One stream file just past a full-pass chunk whose codec detail is
    // complete in its first packets: the quick pass exits early inside
    // that first chunk while the full pass reads to EOF, so which pass a
    // trail came from is visible in where its count stops climbing.
    let m2ts = two_chunk_m2ts(&[(0x1B, 0x1011)], &[1, 2, 3], &[46, 47, 48]);
    let size = u64::try_from(m2ts.len()).expect("the fixture is far under u64::MAX");
    let chunk = u64::try_from(DATA_SIZE).expect("the read chunk is far under u64::MAX");
    let disc = tripping_disc(m2ts, None);
    let trail = |mode| {
        let store = disc.store();
        drop(scan_with(&disc, &store, mode, None).expect("the healthy mock disc scans"));
        store.events()
    };

    // `Codecs`: the quick pass reports, against the same whole-source
    // budget the full pass would have used.
    let codecs = trail(ScanMode::Codecs);
    assert!(codecs.iter().all(|(file, _, total)| file == "00000.M2TS" && *total == size));
    assert_eq!(codecs.first().map(|(_, done, _)| *done), Some(0));
    assert!(climbs(&codecs), "the count never goes backwards");
    // The pass stops reading long before EOF — its last read event is
    // still inside the first full-pass chunk…
    let last_read = codecs.iter().rev().nth(1).map(|(_, done, _)| *done);
    assert!(last_read.is_some_and(|done| done < chunk), "the quick pass exits early");
    // …and the file-boundary snap is what carries the display to 100%.
    assert_eq!(codecs.last().map(|(_, done, _)| *done), Some(size));

    // `Full`: the quick pass ahead of the measurement pass stays silent.
    // Its first read would be a 16 KiB quick chunk followed by its own
    // snap to 100%; the trail instead opens on a full-pass chunk and
    // climbs to 100% once, so nothing of it reaches the caller.
    let full = trail(ScanMode::Full);
    assert!(full.iter().all(|(file, _, total)| file == "00000.M2TS" && *total == size));
    assert_eq!(full.first().map(|(_, done, _)| *done), Some(0));
    assert_eq!(full.get(1).map(|(_, done, _)| *done), Some(chunk));
    assert!(climbs(&full), "the count never restarts");
    assert_eq!(full.last().map(|(_, done, _)| *done), Some(size));
}

#[test]
fn a_cancel_flag_tripped_by_the_progress_callback_aborts_the_scan() {
    let disc = cancel_fixture().root;
    // Baseline: the uncancelled full scan's complete event trail.
    let store = disc.store();
    drop(scan_with(&disc, &store, ScanMode::Full, None).expect("the uncancelled scan"));
    let baseline = store.events();
    // Cancelling on the FIRST event: the scan aborts with `ScanCancelled`
    // and stops emitting promptly — the full pass's event trail and the
    // file-boundary snaps never happen, proving an early exit rather than
    // a scan run to completion.
    let store = Store::with(BTreeMap::new(), false, true);
    let err =
        scan_with(&disc, &store, ScanMode::Full, None).expect_err("the cancelled scan errors");
    assert_eq!(err.message(), "scan cancelled");
    let events = store.events();
    assert!(events.len() < baseline.len(), "the cancelled scan must stop early");
    // The in-flight chunk still completes (the flag is polled per chunk); nothing follows.
    assert!(events.len() <= 4, "the event trail stops at the in-flight chunk");

    // The resilient scan aborts identically: cancellation is the caller's
    // abort, not disc damage to collect, so no partial report escapes.
    let store = Store::with(BTreeMap::new(), false, true);
    let err = scan_resilient_with(&disc, &store, ScanMode::Full, None)
        .expect_err("the cancelled resilient scan errors");
    assert_eq!(err.message(), "scan cancelled");
}

#[test]
fn a_preset_cancel_flag_aborts_the_packet_scan_before_any_progress() {
    let disc = cancel_fixture().root;
    // Every packet-scanning mode aborts on the quick pass's first chunk
    // read, before the full pass ever fires the callback.
    for mode in [ScanMode::Codecs, ScanMode::Full] {
        let store = Store::with(BTreeMap::new(), true, false);
        let err = scan_with(&disc, &store, mode, None).expect_err("the pre-cancelled scan errors");
        assert_eq!(err.message(), "scan cancelled");
        assert!(store.events().is_empty(), "no progress escapes a pre-cancelled scan");
    }
    let store = Store::with(BTreeMap::new(), true, false);
    let err = scan_resilient_with(&disc, &store, ScanMode::Full, None)
        .expect_err("the pre-cancelled resilient scan errors");
    assert_eq!(err.message(), "scan cancelled");
    assert!(store.events().is_empty(), "no progress escapes the resilient abort either");
    // Metadata reads no packets, so the flag is never observed — the
    // bounded structural scan completes as if no flag existed.
    let store = Store::with(BTreeMap::new(), true, false);
    let bd = scan_with(&disc, &store, ScanMode::Metadata, None)
        .expect("the metadata scan never polls the flag");
    assert!(store.events().is_empty(), "a metadata scan reads no packets");
    assert_eq!(bd.playlists.len(), 2);
}

#[test]
fn a_cancelled_resilient_scan_records_no_per_file_errors() {
    // Cancellation mid-pass aborts the RESILIENT `scan_stream_files` with
    // nothing recorded — a cancel never misreports the in-flight (or any
    // later) file as damaged.
    let stream_dir = MockDir::new(
        "STREAM",
        Vec::new(),
        vec![
            MockFile::new("00000.m2ts", vec![0_u8; 200]),
            MockFile::new("00001.m2ts", vec![0_u8; 200]),
        ],
    );
    let mut playlists =
        vec![TsPlaylistFile::scan("00000.mpls", &mpls("00000", 0, 4_500_000, &[])).unwrap()];
    let store = Store::with(BTreeMap::new(), false, true);
    let mut progress = Progress::new(400);
    let mut sink = Sink::resilient();
    let result = scan_stream_files(
        &Codecs,
        &store,
        Some(&stream_dir.entry()),
        None,
        None,
        &mut playlists,
        &mut sink,
        true,
        false,
        &mut progress,
        &mut store.watcher(),
    );
    let message = result.err().map(|err| err.message());
    assert_eq!(message.as_deref(), Some("scan cancelled"));
    assert!(sink.into_errors().is_empty(), "cancellation is never a per-file failure");
}

#[test]
fn open_resilient_equals_open_on_a_healthy_disc_with_no_errors() {
    // Resilience is additive: on healthy media the resilient scan returns the
    // exact same BdRom as the strict scan, with an empty error list.
    let clip = clpi(&[(0x1011, 0x1B, [0x63, 0x30, 0, 0])]);
    let play = mpls("00000", 2_700_000, 4_500_000, &[(1, 0, 2_700_000)]);
    let disc = TempDisc::build(
        &[],
        &[("BDMV/PLAYLIST/00000.mpls", play), ("BDMV/CLIPINF/00000.clpi", clip)],
    );
    let strict = disc.open().expect("strict scan");
    let report = disc.open_resilient(ScanMode::Metadata)
        .expect("resilient scan");
    assert!(report.errors.is_empty());
    assert_eq!(report.bdrom, strict);
}

#[test]
fn open_resilient_keeps_other_playlists_on_a_corrupt_clip_file() {
    // Playlist 00001 references the corrupt 00001.clpi; playlist 00000 is
    // healthy. The strict scan aborts everything; the resilient scan emits
    // 00000.MPLS and records both the clip-info parse failure and the playlist
    // that lost its clip.
    let good_clip = clpi(&[(0x1011, 0x1B, [0x62, 0x30, 0, 0])]);
    let disc = TempDisc::build(
        &[],
        &[
            ("BDMV/PLAYLIST/00000.mpls", mpls("00000", 0, 4_500_000, &[])),
            ("BDMV/PLAYLIST/00001.mpls", mpls("00001", 0, 9_000_000, &[])),
            ("BDMV/CLIPINF/00000.clpi", good_clip),
            ("BDMV/CLIPINF/00001.clpi", b"XXXX0100junk".to_vec()),
        ],
    );
    assert!(disc.open().is_err(), "the strict scan aborts on the corrupt clip");

    let report = disc.open_resilient(ScanMode::Metadata)
        .expect("resilient scan continues");
    let names: Vec<&str> = report.bdrom.playlists.iter().map(|p| p.name.as_str()).collect();
    assert_eq!(names, vec!["00000.MPLS"]); // the readable rest is emitted
    assert_eq!(report.errors.len(), 2);
    let clip_err = report.errors.first().expect("clip error");
    assert_eq!(clip_err.stage, ScanStage::ClipInfo);
    assert_eq!(clip_err.file, "00001.clpi");
    assert_eq!(clip_err.reason.message(), "unknown file type: XXXX0100");
    let playlist_err = report.errors.get(1).expect("playlist error");
    assert_eq!(playlist_err.stage, ScanStage::Playlist);
    assert_eq!(playlist_err.file, "00001.MPLS");
    assert_eq!(playlist_err.reason.message(), "referenced missing clip file: 00001.CLPI");
}

#[test]
fn open_resilient_keeps_other_playlists_on_a_corrupt_playlist() {
    let clip = clpi(&[(0x1011, 0x1B, [0x62, 0x30, 0, 0])]);
    let disc = TempDisc::build(
        &[],
        &[
            ("BDMV/PLAYLIST/00000.mpls", mpls("00000", 0, 4_500_000, &[])),
            ("BDMV/PLAYLIST/00001.mpls", b"XXXXjunk".to_vec()),
            ("BDMV/CLIPINF/00000.clpi", clip),
        ],
    );
    assert!(disc.open().is_err(), "the strict scan aborts on the corrupt playlist");

    let report = disc.open_resilient(ScanMode::Metadata)
        .expect("resilient scan continues");
    let names: Vec<&str> = report.bdrom.playlists.iter().map(|p| p.name.as_str()).collect();
    assert_eq!(names, vec!["00000.MPLS"]);
    assert_eq!(report.errors.len(), 1);
    let err = report.errors.first().expect("playlist error");
    assert_eq!((err.stage, err.file.as_str()), (ScanStage::Playlist, "00001.mpls"));
    assert_eq!(err.reason.message(), "unknown file type: XXXXjunk");
}

#[test]
fn open_resilient_defaults_the_flags_on_failed_metadata_reads() {
    // index.bdmv and bdmt_eng.xml open fine but fail to read: the resilient
    // scan records both and falls back to is_uhd=false / disc_title=None.
    let broken = |name: &str| MockFile {
        name: name.to_owned(),
        bytes: vec![0],
        fail_read_at: Some(0),
    };
    let dir = MockDir::new;
    let root = dir(
        "disc",
        vec![dir(
            "BDMV",
            vec![
                dir("CLIPINF", vec![], vec![]),
                dir("PLAYLIST", vec![], vec![]),
                dir("META", vec![], vec![broken("bdmt_eng.xml")]),
            ],
            vec![broken("index.bdmv")],
        )],
        vec![],
    );
    let report =
        root.open_resilient(ScanMode::Metadata).expect("resilient scan continues");
    assert!(!report.bdrom.is_uhd);
    assert_eq!(report.bdrom.disc_title, None);
    assert_eq!(report.errors.len(), 2);
    let uhd = report.errors.first().expect("index error");
    assert_eq!((uhd.stage, uhd.file.as_str()), (ScanStage::Discovery, "index.bdmv"));
    let title = report.errors.get(1).expect("title error");
    assert_eq!((title.stage, title.file.as_str()), (ScanStage::Discovery, "META"));

    // The strict scan aborts on the first of the same failures.
    assert!(root.open(ScanMode::Metadata).is_err());
}

#[test]
fn read_file_surfaces_a_read_error_after_a_successful_open() {
    let mut unreadable = MockFile::new("unreadable.bin", vec![1]);
    unreadable.fail_read_at = Some(0);
    assert!(read_file(&unreadable.entry()).is_err()); // opens, but does not read
}

#[test]
fn read_file_capped_accepts_a_file_sitting_exactly_on_the_cap() {
    let file = MockFile::new("00000.MPLS", vec![7; 8]).entry();
    // Exactly `cap` bytes is legal — only the byte *past* the cap is not.
    assert_eq!(*read_file_capped(&file, 8).expect("at the cap"), vec![7; 8]);
}

#[test]
fn read_file_capped_rejects_a_file_one_byte_over_the_cap() {
    let file = MockFile::new("00000.MPLS", vec![7; 9]).entry();
    let err = read_file_capped(&file, 8).expect_err("one byte over the cap");
    assert!(matches!(
        err,
        BdError::MetadataTooLarge { ref file, limit: 8 } if file == "00000.MPLS"
    ));
    assert_eq!(err.message(), "metadata file too large: 00000.MPLS");
}

#[test]
fn read_file_caps_a_file_by_its_bytes_and_not_by_its_stated_length() {
    // The bytes that were read decide, whatever length the file claims.
    let file = FileEntry {
        name: "00000.MPLS".to_owned(),
        length: u64::MAX,
        content: Ok(vec![0; MAX_METADATA_BYTES as usize + 1]),
    };
    let err = read_file(&file).expect_err("too many bytes are refused");
    assert!(matches!(
        err,
        BdError::MetadataTooLarge { limit, .. } if limit == MAX_METADATA_BYTES
    ));
    let small = FileEntry { name: "a".to_owned(), length: u64::MAX, content: Ok(vec![1]) };
    assert_eq!(*read_file(&small).expect("few bytes"), vec![1]);
}

#[test]
fn open_scanned_resolves_an_fmts_clip_stream_file() {
    // A play item whose codec id is `FMTS` resolves a `*.FMTS` stream file
    // (not `*.M2TS`) while still pairing with its `*.CLPI` by stem, so an
    // FMTS disc scans instead of degrading to a missing-file warning.
    let clip = clpi(&[(0x1011, 0x1B, [0x62, 0x30, 0, 0])]);
    let play = mpls_items_codec(*b"FMTS", &["00000"], 0, 4_500_000, &[], &[], &[]);
    let disc = TempDisc::build(
        &[],
        &[
            ("BDMV/PLAYLIST/00000.mpls", play),
            ("BDMV/CLIPINF/00000.clpi", clip),
            ("BDMV/STREAM/00000.fmts", vec![0; 200]),
        ],
    );
    let bd = disc.open_scanned().expect("fmts disc scans");
    let playlist = bd.playlists.first().expect("one playlist");
    let clip = playlist.clips.first().expect("one clip");
    assert_eq!(clip.name, "00000.FMTS"); // the clip resolved its `.fmts` file
    // The `.fmts` file was discovered as a stream file and folded into the size.
    assert_eq!(playlist.file_size, 200);
}

#[test]
fn open_resilient_recovers_a_playlist_from_backup() {
    // The primary playlist is corrupt but `BDMV/BACKUP/PLAYLIST` carries an
    // intact copy: the resilient scan recovers the playlist and still notes
    // the bad primary. Strict open never reads BACKUP, so it aborts.
    let clip = clpi(&[(0x1011, 0x1B, [0x62, 0x30, 0, 0])]);
    let disc = TempDisc::build(
        &[],
        &[
            ("BDMV/PLAYLIST/00000.mpls", b"XXXXjunk".to_vec()),
            ("BDMV/BACKUP/PLAYLIST/00000.mpls", mpls("00000", 0, 4_500_000, &[])),
            ("BDMV/CLIPINF/00000.clpi", clip),
        ],
    );
    assert!(disc.open().is_err(), "strict open ignores BACKUP");

    let report = disc.open_resilient(ScanMode::Metadata)
        .expect("recovers");
    let names: Vec<&str> = report.bdrom.playlists.iter().map(|p| p.name.as_str()).collect();
    assert_eq!(names, vec!["00000.MPLS"]); // recovered from BACKUP
    assert_eq!(report.errors.len(), 1);
    let err = report.errors.first().expect("primary note");
    assert_eq!((err.stage, err.file.as_str()), (ScanStage::Playlist, "00000.mpls"));
    assert_eq!(err.reason.message(), "unknown file type: XXXXjunk");
}

#[test]
fn open_resilient_recovers_a_clip_from_backup() {
    // The primary clip-info is corrupt but `BDMV/BACKUP/CLIPINF` is intact:
    // the clip recovers, so its playlist scans (no missing-clip failure) and
    // only the bad primary is noted.
    let good_clip = clpi(&[(0x1011, 0x1B, [0x62, 0x30, 0, 0])]);
    let disc = TempDisc::build(
        &[],
        &[
            ("BDMV/PLAYLIST/00000.mpls", mpls("00000", 0, 4_500_000, &[])),
            ("BDMV/CLIPINF/00000.clpi", b"XXXX0100junk".to_vec()),
            ("BDMV/BACKUP/CLIPINF/00000.clpi", good_clip),
        ],
    );
    let report = disc.open_resilient(ScanMode::Metadata)
        .expect("recovers");
    let names: Vec<&str> = report.bdrom.playlists.iter().map(|p| p.name.as_str()).collect();
    assert_eq!(names, vec!["00000.MPLS"]); // the clip recovered → playlist scans
    assert_eq!(report.errors.len(), 1);
    let err = report.errors.first().expect("clip note");
    assert_eq!((err.stage, err.file.as_str()), (ScanStage::ClipInfo, "00000.clpi"));
    assert_eq!(err.reason.message(), "unknown file type: XXXX0100");
}

#[test]
fn open_resilient_recovers_the_index_from_backup() {
    // The primary `index.bdmv` is present but unreadable; the BACKUP copy
    // says UHD. The resilient scan recovers the UHD flag and notes the bad
    // primary. (A real on-disk file can't fail to read, so this uses the
    // io-injecting mock.)
    let mk = |name: &str, bytes: Vec<u8>, fail_read: bool| MockFile {
        name: name.to_owned(),
        bytes,
        fail_read_at: if fail_read { Some(0) } else { None },
    };
    let dir = MockDir::new;
    let root = dir(
        "disc",
        vec![dir(
            "BDMV",
            vec![
                dir("CLIPINF", vec![], vec![]),
                dir("PLAYLIST", vec![], vec![]),
                dir("BACKUP", vec![], vec![mk("index.bdmv", b"INDX0300".to_vec(), false)]),
            ],
            vec![mk("index.bdmv", vec![0], true)], // primary unreadable
        )],
        vec![],
    );
    let report = root.open_resilient(ScanMode::Metadata).expect("scans");
    assert!(report.bdrom.is_uhd, "UHD flag recovered from BACKUP");
    assert_eq!(report.errors.len(), 1);
    let err = report.errors.first().expect("index note");
    assert_eq!((err.stage, err.file.as_str()), (ScanStage::Discovery, "index.bdmv"));
}

#[test]
fn open_resilient_does_not_recover_from_a_corrupt_backup() {
    // Both copies are corrupt: nothing recovers, and only the primary's
    // failure is recorded (the backup's is not double-counted).
    let clip = clpi(&[(0x1011, 0x1B, [0x62, 0x30, 0, 0])]);
    let disc = TempDisc::build(
        &[],
        &[
            ("BDMV/PLAYLIST/00000.mpls", b"XXXXjunk".to_vec()),
            ("BDMV/BACKUP/PLAYLIST/00000.mpls", b"YYYYjunk".to_vec()),
            ("BDMV/CLIPINF/00000.clpi", clip),
        ],
    );
    let report = disc.open_resilient(ScanMode::Metadata)
        .expect("scans");
    assert!(report.bdrom.playlists.is_empty());
    assert_eq!(report.errors.len(), 1);
    assert_eq!(
        report.errors.first().expect("primary note").reason.message(),
        "unknown file type: XXXXjunk"
    );
}

#[test]
fn open_resilient_does_not_recover_when_backup_lacks_the_file() {
    // The BACKUP directory exists but holds a different file, so the corrupt
    // primary cannot be recovered.
    let clip = clpi(&[(0x1011, 0x1B, [0x62, 0x30, 0, 0])]);
    let disc = TempDisc::build(
        &[],
        &[
            ("BDMV/PLAYLIST/00000.mpls", b"XXXXjunk".to_vec()),
            ("BDMV/BACKUP/PLAYLIST/00001.mpls", mpls("00001", 0, 4_500_000, &[])),
            ("BDMV/CLIPINF/00000.clpi", clip),
        ],
    );
    let report = disc.open_resilient(ScanMode::Metadata)
        .expect("scans");
    assert!(report.bdrom.playlists.is_empty());
    assert_eq!(report.errors.len(), 1);
}

#[test]
fn backup_subdir_files_lists_present_and_empties_absent_directories() {
    let playlist =
        MockDir::new("PLAYLIST", Vec::new(), vec![MockFile::new("00000.mpls", vec![1])]);
    let backup = MockDir::new("BACKUP", vec![playlist], Vec::new()).entry();
    // A present subdirectory is listed keyed by upper-cased name…
    let pool = backup_subdir_files(&backup, BdmvDir::Playlist).expect("present");
    assert!(pool.contains_key("00000.MPLS"));
    // …an absent one yields an empty pool.
    assert!(backup_subdir_files(&backup, BdmvDir::ClipInf).expect("absent").is_empty());
}

#[test]
fn collect_backups_lists_all_pools_and_propagates_every_listing_failure() {
    let sub = |name: &str, file: &str| {
        MockDir::new(name, Vec::new(), vec![MockFile::new(file, vec![1])])
    };
    let backup = MockDir::new(
        "BACKUP",
        vec![sub("PLAYLIST", "00000.mpls"), sub("CLIPINF", "00000.clpi")],
        vec![MockFile::new("index.bdmv", vec![1])],
    );
    let bdmv = |backup: &MockDir| MockDir::new("BDMV", vec![backup.clone()], Vec::new()).entry();
    let dir = bdmv(&backup);
    let pools = collect_backups(&dir).expect("clean probe");
    assert!(pools.index.contains_key("INDEX.BDMV"));
    assert!(pools.playlist.contains_key("00000.MPLS"));
    assert!(pools.clipinf.contains_key("00000.CLPI"));
    // Each BACKUP-side listing that fails surfaces as Err (none swallowed).
    let mut one = backup.clone();
    one.fail_files = true;
    assert!(collect_backups(&bdmv(&one)).is_err());
    let mut one = backup.clone();
    one.fail_dirs = true;
    assert!(collect_backups(&bdmv(&one)).is_err());
    for at in 0..2 {
        let mut one = backup.clone();
        one.dirs[at].fail_files = true;
        assert!(collect_backups(&bdmv(&one)).is_err());
    }
}

#[test]
fn an_untagged_index_warns_in_resilient_and_is_tolerated_in_strict() {
    // A present `index.bdmv` lacking the `INDX` tag stays non-UHD (the
    // tolerance is kept), but the resilient scan surfaces it as a warning;
    // strict open tolerates it silently.
    let clip = clpi(&[(0x1011, 0x1B, [0x62, 0x30, 0, 0])]);
    let make = |index: &[u8]| {
        TempDisc::build(
            &[],
            &[
                ("BDMV/PLAYLIST/00000.mpls", mpls("00000", 0, 4_500_000, &[])),
                ("BDMV/CLIPINF/00000.clpi", clip.clone()),
                ("BDMV/index.bdmv", index.to_vec()),
            ],
        )
    };

    // A long (>= 8 byte) garbage index: warned, version magic reported.
    let disc = make(b"XXXXjunk");
    let report = disc.open_resilient(ScanMode::Metadata)
        .expect("scans");
    assert!(!report.bdrom.is_uhd);
    assert_eq!(report.errors.len(), 1);
    let err = report.errors.first().expect("index warning");
    assert_eq!((err.stage, err.file.as_str()), (ScanStage::Discovery, "index.bdmv"));
    assert_eq!(err.reason.message(), "unknown file type: XXXXjunk");
    // Strict open tolerates the same index silently — non-UHD, no error.
    assert!(!disc.open().expect("strict tolerates an untagged index").is_uhd);

    // A short (< 8 byte) garbage index: still warned, magic empty.
    let short = make(b"XX");
    let report = short.open_resilient(ScanMode::Metadata)
        .expect("scans");
    assert!(!report.bdrom.is_uhd);
    assert_eq!(
        report.errors.first().expect("short index warning").reason.message(),
        "unknown file type: "
    );
}

#[test]
fn an_untagged_index_falls_back_to_the_backup_copy() {
    // The primary `index.bdmv` reads fine but is garbage. A tagged BACKUP
    // copy supplies the verdict (UHD here); an untagged or absent one leaves
    // the tolerated non-UHD. Every case warns about the primary exactly once.
    let clip = clpi(&[(0x1011, 0x1B, [0x62, 0x30, 0, 0])]);
    let make = |backup: Option<&[u8]>| {
        let mut files = vec![
            ("BDMV/PLAYLIST/00000.mpls", mpls("00000", 0, 4_500_000, &[])),
            ("BDMV/CLIPINF/00000.clpi", clip.clone()),
            ("BDMV/index.bdmv", b"XXXXjunk".to_vec()),
            // A BACKUP directory is present in every case, so the missing
            // -counterpart case differs from the others only in its index.
            ("BDMV/BACKUP/PLAYLIST/00000.mpls", mpls("00000", 0, 4_500_000, &[])),
        ];
        if let Some(bytes) = backup {
            files.push(("BDMV/BACKUP/index.bdmv", bytes.to_vec()));
        }
        TempDisc::build(&[], &files)
    };
    let scan = |disc: &TempDisc| disc.open_resilient(ScanMode::Metadata).expect("scans");

    // A tagged BACKUP copy recovers the UHD verdict…
    let recovered = make(Some(b"INDX0300"));
    let report = scan(&recovered);
    assert!(report.bdrom.is_uhd, "UHD flag recovered from an intact BACKUP index");
    assert_eq!(report.errors.len(), 1, "the untagged primary warns exactly once");
    let err = report.errors.first().expect("index warning");
    assert_eq!((err.stage, err.file.as_str()), (ScanStage::Discovery, "index.bdmv"));
    assert_eq!(err.reason.message(), "unknown file type: XXXXjunk");
    // …and a tagged non-UHD BACKUP copy answers non-UHD from the tag, not
    // from the fallback.
    assert!(!scan(&make(Some(b"INDX0200"))).bdrom.is_uhd);
    // Strict open builds no recovery pool, so it stays at the tolerated
    // non-UHD with no warning.
    assert!(!recovered.open().expect("strict tolerates an untagged index").is_uhd);

    // An untagged BACKUP copy recovers nothing, and is not warned about.
    let report = scan(&make(Some(b"YYYYjunk")));
    assert!(!report.bdrom.is_uhd);
    assert_eq!(report.errors.len(), 1);

    // Neither does a BACKUP directory holding no `index.bdmv`.
    let report = scan(&make(None));
    assert!(!report.bdrom.is_uhd);
    assert_eq!(report.errors.len(), 1);
}

#[test]
fn an_unreadable_primary_index_recovered_as_garbage_stays_non_uhd() {
    // Both copies are damaged in different ways: the primary cannot be read
    // and the BACKUP copy is untagged. The recovered garbage is tolerated as
    // non-UHD, and only the primary's read failure is recorded.
    let mk = |name: &str, bytes: Vec<u8>, fail_read: bool| MockFile {
        name: name.to_owned(),
        bytes,
        fail_read_at: if fail_read { Some(0) } else { None },
    };
    let dir = MockDir::new;
    let root = dir(
        "disc",
        vec![dir(
            "BDMV",
            vec![
                dir("CLIPINF", vec![], vec![]),
                dir("PLAYLIST", vec![], vec![]),
                dir("BACKUP", vec![], vec![mk("index.bdmv", b"XXXXjunk".to_vec(), false)]),
            ],
            vec![mk("index.bdmv", vec![0], true)], // primary unreadable
        )],
        vec![],
    );
    let report = root.open_resilient(ScanMode::Metadata).expect("scans");
    assert!(!report.bdrom.is_uhd);
    assert_eq!(report.errors.len(), 2, "the unreadable primary, then its untagged stand-in");
    for err in &report.errors {
        assert_eq!((err.stage, err.file.as_str()), (ScanStage::Discovery, "index.bdmv"));
    }
}

#[test]
fn a_metadata_scan_is_the_same_whatever_reads_the_packets() {
    let disc = mock_disc();
    let plain = BdRom::open(&Render, &NoCodecs {}, &disc.chain(), ScanMode::Metadata).unwrap();
    assert_eq!(disc.open(ScanMode::Metadata).unwrap(), plain);
}

#[test]
fn held_files_scan_as_any_other_store_does_whatever_the_chunks() {
    let mut m2ts = packet(0, true, &pat_payload(0x0100));
    m2ts.extend(packet(0x0100, true, &pmt_payload(&[(0x1B, 0x1011)])));
    for n in 1..6_u64 {
        m2ts.extend(packet(0x1011, true, &pes_dts(0xE0, n * 90_000, n * 90_000, &sps_payload())));
    }
    let disc = tripping_disc(m2ts, None);
    let whole = disc.open(ScanMode::Full).unwrap();
    for chunk_size in [0, 1, 7, 191, 192, 193, 1_000_000] {
        let store = HeldFiles { chunk_size };
        let bd = BdRom::open_with(
            &Render,
            &Codecs,
            &store,
            &disc.chain(),
            ScanMode::Full,
            ScanOptions::default(),
            None,
            &mut Indifferent::new(),
        )
        .unwrap();
        assert_eq!(bd, whole);
    }
}

#[test]
fn coding_types_are_words_of_their_own() {
    let disc = mock_disc();
    let bd = BdRom::open(&TypeNames {}, &NoCodecs {}, &disc.chain(), ScanMode::Full).unwrap();
    let row = bd.playlists.first().unwrap().streams.first().unwrap();
    assert_eq!(row.codec_name, "AVC_VIDEO");
    assert_eq!(row.description, "");
    assert_eq!(bd.full_size(), bd.size + 10);
}

#[test]
fn a_resilient_scan_goes_on_without_the_interleaved_sources_of_an_unlistable_stream_dir() {
    // The subdirectories of STREAM cannot be listed: a strict scan ends there, a resilient
    // one notes it and reads the stream files without interleaved sources.
    let mut disc = cancel_fixture().root;
    let clean = disc.open(ScanMode::Full).expect("a disc without interleaved sources");
    disc.at("BDMV/STREAM").fail_dirs = true;
    let strict = disc.open(ScanMode::Full).expect_err("a strict scan ends");
    assert_eq!(strict.message(), "io error: injected io failure");
    let report = disc.open_resilient(ScanMode::Full).expect("a resilient scan goes on");
    assert_eq!(report.bdrom.playlists, clean.playlists);
    // The disc's size needs the listing too.
    assert_eq!((report.bdrom.size, clean.size > 0), (0, true));
    let stages: Vec<(ScanStage, &str)> =
        report.errors.iter().map(|e| (e.stage, e.file.as_str())).collect();
    assert_eq!(
        stages,
        [(ScanStage::Discovery, "STREAM"), (ScanStage::Discovery, disc.name.as_str())]
    );
}

#[test]
fn a_stop_asked_for_beforehand_leaves_the_count_and_the_notes() {
    let stream_dir =
        MockDir::new("STREAM", Vec::new(), vec![MockFile::new("00000.m2ts", vec![0_u8; 200])]);
    let play = || TsPlaylistFile::scan("00000.mpls", &mpls("00000", 0, 4_500_000, &[])).unwrap();
    for full in [false, true] {
        let mut playlists = vec![play()];
        let store = Store::with(BTreeMap::new(), true, false);
        let mut progress = Progress::new(200);
        let mut sink = Sink::resilient();
        let result = scan_stream_files(
            &Codecs,
            &store,
            Some(&stream_dir.entry()),
            None,
            None,
            &mut playlists,
            &mut sink,
            true,
            full,
            &mut progress,
            &mut store.watcher(),
        );
        assert_eq!(result.err(), Some(BdError::ScanCancelled));
        assert_eq!(progress, Progress::new(200));
        assert!(store.events().is_empty());
        assert!(sink.into_errors().is_empty());
        assert_eq!(playlists, [play()]);
    }
}

#[test]
fn an_observer_is_told_before_and_after_each_read_and_at_the_end_of_each_file() {
    let disc = cancel_fixture().root;
    let store = disc.store();
    scan_with(&disc, &store, ScanMode::Codecs, None).unwrap();
    let at = |file: &str, done| (file.to_owned(), done, 1500_u64);
    assert_eq!(
        store.events(),
        [
            at("00000.M2TS", 0),
            at("00000.M2TS", 1000),
            // The read that finds the end of the file.
            at("00000.M2TS", 1000),
            at("00000.M2TS", 1000),
            at("00000.M2TS", 1000),
            at("00001.M2TS", 1000),
            at("00001.M2TS", 1500),
            at("00001.M2TS", 1500),
            at("00001.M2TS", 1500),
            at("00001.M2TS", 1500),
        ]
    );
    // A pass that nobody observes tells nothing.
    let dir = disc.clone().at("BDMV/STREAM").entry();
    let store = disc.store();
    scan_stream_files(
        &Codecs,
        &store,
        Some(&dir),
        None,
        None,
        &mut Vec::new(),
        &mut Sink::strict(),
        true,
        true,
        &mut Progress::silent(),
        &mut store.watcher(),
    )
    .unwrap();
    assert!(store.events().is_empty());
}

#[test]
fn two_stream_files_with_one_interleaved_source_end_short_of_the_total() {
    // Both count the source, and one reads it: the count stops at what there was to read.
    let mut disc = cancel_fixture().root;
    disc.at("BDMV/STREAM").files.push(MockFile::new("00000.fmts", vec![0_u8; 10]));
    disc.at("BDMV/STREAM/SSIF").files.push(MockFile::new("00000.ssif", vec![0_u8; 4000]));
    let store = disc.store();
    scan_with(&disc, &store, ScanMode::Full, None).unwrap();
    let last = store.events().pop().unwrap();
    assert_eq!((last.1, last.2), (4000 + 500 + 10, 4000 + 500 + 4000));
}

#[test]
fn a_report_without_errors_is_the_strict_one_and_sorted() {
    let mut disc = mock_disc();
    disc.at("BDMV/PLAYLIST").files.reverse();
    for mode in [ScanMode::Metadata, ScanMode::Codecs, ScanMode::Full] {
        let report = disc.open_resilient(mode).unwrap();
        assert!(report.errors.is_empty());
        assert_eq!(disc.open(mode).unwrap(), report.bdrom);
        let names: Vec<String> = report.bdrom.playlists.iter().map(|p| p.name.clone()).collect();
        let mut sorted = names.clone();
        sorted.sort();
        assert_eq!(names, sorted);
    }
}

#[test]
fn the_listing_order_makes_no_difference_to_the_encryption_samples() {
    let clear = vec![0x47_u8; 2 * ALIGNED_UNIT_BYTES];
    let noise = encrypted_stream();
    let files = [
        MockFile::new("00000.m2ts", noise.clone()),
        MockFile::new("00001.m2ts", noise),
        MockFile::new("00002.m2ts", clear),
    ];
    for order in [[0, 1, 2], [0, 2, 1], [1, 0, 2], [1, 2, 0], [2, 0, 1], [2, 1, 0]] {
        let listed = order.iter().map(|&k| files[k].clone()).collect();
        let dir = MockDir::new("STREAM", Vec::new(), listed).entry();
        assert!(stream_content_encrypted(&dir));
    }
}
