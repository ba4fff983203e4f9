//! What can go wrong while a disc is read.

use vstd::prelude::*;
use vstd::string::*;

verus! {

/// A failure of a parse or of a disc scan.
#[derive(Debug, PartialEq, Eq)]
pub enum BdError {
    /// A field runs past the end of its file.
    UnexpectedEof,
    /// A file's type magic is none that is known.
    UnknownFileType(String),
    /// A playlist names a clip whose clip-information file is absent.
    MissingClipFile(String),
    /// The disc lacks a directory without which nothing can be scanned.
    StructureNotFound,
    /// The caller asked for the scan to stop.
    ScanCancelled,
    /// A metadata file is larger than the scan is ready to hold.
    MetadataTooLarge { file: String, limit: u64 },
    /// The file system failed, with its own words.
    Io(String),
}

/// What a [`BdError`] says, with its texts as character sequences.
pub enum Failure {
    UnexpectedEof,
    UnknownFileType(Seq<char>),
    MissingClipFile(Seq<char>),
    StructureNotFound,
    ScanCancelled,
    MetadataTooLarge { file: Seq<char>, limit: u64 },
    Io(Seq<char>),
}

impl View for BdError {
    type V = Failure;

    open spec fn view(&self) -> Failure {
        match *self {
            BdError::UnexpectedEof => Failure::UnexpectedEof,
            BdError::UnknownFileType(s) => Failure::UnknownFileType(s@),
            BdError::MissingClipFile(s) => Failure::MissingClipFile(s@),
            BdError::StructureNotFound => Failure::StructureNotFound,
            BdError::ScanCancelled => Failure::ScanCancelled,
            BdError::MetadataTooLarge { file, limit } => Failure::MetadataTooLarge {
                file: file@,
                limit,
            },
            BdError::Io(s) => Failure::Io(s@),
        }
    }
}

/// The stage of a disc scan a failure belongs to.
#[derive(Debug, Clone, Copy, PartialEq, Eq, Structural)]
pub enum ScanStage {
    /// Finding the directories and reading the disc-level flags.
    Discovery,
    /// Reading one clip-information file.
    ClipInfo,
    /// Reading one playlist.
    Playlist,
    /// Reading one stream file.
    StreamFile,
}

/// One file's failure, as a resilient scan records it.
#[derive(Debug, PartialEq, Eq)]
pub struct ScanError {
    /// The file, or the directory, that failed.
    pub file: String,
    /// The stage it failed at.
    pub stage: ScanStage,
    /// What went wrong.
    pub reason: BdError,
}

/// What a [`ScanError`] says, with its texts as character sequences.
pub struct Note {
    pub file: Seq<char>,
    pub stage: ScanStage,
    pub reason: Failure,
}

impl View for ScanError {
    type V = Note;

    open spec fn view(&self) -> Note {
        Note { file: self.file@, stage: self.stage, reason: self.reason@ }
    }
}

/// The sentence that a failure is reported with.
pub open spec fn sentence(f: Failure) -> Seq<char> {
    match f {
        Failure::UnexpectedEof => "unexpected end of input"@,
        Failure::UnknownFileType(s) => "unknown file type: "@ + s,
        Failure::MissingClipFile(s) => "referenced missing clip file: "@ + s,
        Failure::StructureNotFound => "unable to locate BD structure"@,
        Failure::ScanCancelled => "scan cancelled"@,
        Failure::MetadataTooLarge { file, limit } => "metadata file too large: "@ + file,
        Failure::Io(s) => "io error: "@ + s,
    }
}

impl BdError {
    /// A copy of the failure.
    pub fn duplicate(&self) -> (r: BdError)
        ensures
            r@ == self@,
    {
        match self {
            BdError::UnexpectedEof => BdError::UnexpectedEof,
            BdError::UnknownFileType(s) => BdError::UnknownFileType(s.clone()),
            BdError::MissingClipFile(s) => BdError::MissingClipFile(s.clone()),
            BdError::StructureNotFound => BdError::StructureNotFound,
            BdError::ScanCancelled => BdError::ScanCancelled,
            BdError::MetadataTooLarge { file, limit } => BdError::MetadataTooLarge {
                file: file.clone(),
                limit: *limit,
            },
            BdError::Io(s) => BdError::Io(s.clone()),
        }
    }

    /// The failure as a sentence.
    pub fn message(&self) -> (r: String)
        ensures
            r@ == sentence(self@),
    {
        match self {
            BdError::UnexpectedEof => "unexpected end of input".to_owned(),
            BdError::UnknownFileType(s) => "unknown file type: ".to_owned().concat(s.as_str()),
            BdError::MissingClipFile(s) => "referenced missing clip file: ".to_owned().concat(
                s.as_str(),
            ),
            BdError::StructureNotFound => "unable to locate BD structure".to_owned(),
            BdError::ScanCancelled => "scan cancelled".to_owned(),
            BdError::MetadataTooLarge { file, limit: _ } => "metadata file too large: ".to_owned().concat(
                file.as_str(),
            ),
            BdError::Io(s) => "io error: ".to_owned().concat(s.as_str()),
        }
    }
}

} // verus!
