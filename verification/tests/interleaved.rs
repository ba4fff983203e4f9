//! Interleaved stream files.

use bdinfo_rs_core::bdrom::interleaved::{BdFile, MemBdFile, TsInterleavedFile};
use bdinfo_rs_core::bdrom::scan::ByteSource;

#[test]
fn new_uppercases_the_name_and_streams_the_bytes() {
    let file = MemBdFile::new("00000.ssif", vec![1, 2, 3, 4], false);
    let interleaved = TsInterleavedFile::new(file);
    assert_eq!(interleaved.name(), "00000.SSIF");

    let mut reader = interleaved.open_read().expect("open the interleaved file");
    let bytes = reader.read().expect("read the interleaved file");
    assert_eq!(bytes, vec![1, 2, 3, 4]);
}

#[test]
fn open_read_propagates_the_io_error() {
    let file = MemBdFile::new("00000.ssif", vec![1], true);
    let interleaved = TsInterleavedFile::new(file);
    assert!(interleaved.open_read().is_err());
}

#[test]
fn debug_shows_the_name_without_the_handle() {
    let file = MemBdFile::new("00000.ssif", vec![0; 8], false);
    let interleaved = TsInterleavedFile::new(file);
    let dump = format!("{interleaved:?}");
    assert!(dump.contains("TsInterleavedFile"));
    assert!(dump.contains("00000.SSIF"));
}

#[test]
fn an_interleaved_file_reports_its_injected_failure() {
    let file = MemBdFile::new("00000.ssif", vec![9, 8, 7], true);
    assert_eq!(file.name(), "00000.ssif");
    let interleaved = TsInterleavedFile::new(file);
    assert_eq!(
        interleaved.open_read().unwrap_err().message(),
        "io error: injected ssif open failure"
    );
}
