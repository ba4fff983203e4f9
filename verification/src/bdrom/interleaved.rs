//! Interleaved 3D stream file (`*.ssif`): a named handle for the demultiplexer.
//!
//! A 3D disc stores the base view and the dependent view interleaved, as packet-aligned
//! extents of one file. Reading it takes nothing special: the extents are more source
//! packets, which the demultiplexer sorts by PID like any others.

use vstd::prelude::*;
use vstd::string::*;

use super::scan::{cut, step_of, ByteSource, MemSource, DATA_SIZE};
use crate::error::BdError;
use crate::text::{to_ascii_uppercase, upper};

verus! {

/// A file handle, of whatever file system.
pub trait BdFile {
    /// What opening the file for reading gives.
    type Reader;

    /// The file's name: by default none.
    open spec fn file_name(&self) -> Seq<char> {
        Seq::empty()
    }

    /// The file's name.
    fn name(&self) -> (r: &str)
        ensures
            r@ == self.file_name(),
    ;

    /// Opens the file for reading.
    fn open_read(&self) -> (r: Result<Self::Reader, BdError>);
}

/// An interleaved 3D stream file.
#[derive(Debug)]
pub struct TsInterleavedFile<F: BdFile> {
    name: String,
    file: F,
}

impl<F: BdFile> TsInterleavedFile<F> {
    /// The upper-cased file name.
    pub closed spec fn shown_name(&self) -> Seq<char> {
        self.name@
    }

    /// The handle.
    pub closed spec fn handle(&self) -> F {
        self.file
    }

    /// Wraps `file`, upper-casing its name.
    pub fn new(file: F) -> (r: Self)
        ensures
            r.shown_name() == upper(file.file_name()),
            r.handle() == file,
    {
        TsInterleavedFile { name: to_ascii_uppercase(file.name()), file }
    }

    /// The upper-cased file name.
    pub fn name(&self) -> (r: &str)
        ensures
            r@ == self.shown_name(),
    {
        self.name.as_str()
    }

    /// Opens the file for reading: the outcome is the handle's.
    pub fn open_read(&self) -> (r: Result<F::Reader, BdError>)
        ensures
            call_ensures(F::open_read, (&self.handle(),), r),
    {
        self.file.open_read()
    }
}

/// A file held in memory, which fails to open where it is marked to.
#[derive(Debug)]
pub struct MemBdFile {
    name: String,
    bytes: Vec<u8>,
    fail: bool,
}

impl MemBdFile {
    /// The file's bytes.
    pub closed spec fn content(&self) -> Seq<u8> {
        self.bytes@
    }

    /// Whether the file fails to open.
    pub closed spec fn fails(&self) -> bool {
        self.fail
    }

    /// A file named `name` over `bytes`.
    pub fn new(name: &str, bytes: Vec<u8>, fail: bool) -> (r: Self)
        ensures
            r.file_name() == name@,
            r.content() == bytes@,
            r.fails() == fail,
    {
        MemBdFile { name: name.to_owned(), bytes, fail }
    }
}

impl BdFile for MemBdFile {
    type Reader = MemSource;

    closed spec fn file_name(&self) -> Seq<char> {
        self.name@
    }

    fn name(&self) -> (r: &str) {
        self.name.as_str()
    }

    fn open_read(&self) -> (r: Result<MemSource, BdError>)
        ensures
            r is Err <==> self.fails(),
            r is Ok ==> r->Ok_0.chunks() == cut(self.content(), 0, step_of(DATA_SIZE)),
            r is Ok ==> r->Ok_0.failure() is None,
            r is Err ==> r->Err_0@ == crate::error::Failure::Io("injected ssif open failure"@),
    {
        if self.fail {
            Err(BdError::Io("injected ssif open failure".to_owned()))
        } else {
            let bytes = self.bytes.clone();
            proof {
                assert(bytes@ =~= self.bytes@);
            }
            Ok(MemSource::new(bytes, DATA_SIZE, None))
        }
    }
}

} // verus!
