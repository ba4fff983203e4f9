//! The directories of a disc, its backups, and its disc-level facts.
//!
//! Every step that can fail goes through the [`Sink`]: a strict scan ends there, a
//! resilient one goes on with what it can read. Only a resilient scan looks at the copies
//! of the metadata under `BDMV/BACKUP`.

use vstd::prelude::*;
use vstd::string::*;

use super::disc::capped;
use super::discovery::{
    any_named, capped_content, child, content_encrypted, detect_aacs_encryption, dir_value,
    directory_size, find_directory, has_any_file, has_bd_plus_dir, has_film_index, has_key_file,
    has_mnv_file, is_bd_plus_name, read_file, tree_size, BdmvDir, DirEntry, FileEntry,
    MAX_METADATA_BYTES,
};
use super::rd_text;
use super::sink::{noted, Sink};
use super::title::{lossy_text, read_disc_title_from, title_in, MAX_XML_CHARS};
use crate::bytes::read_ascii;
use crate::error::{BdError, Failure, Note, ScanStage};
use crate::text::{ends_like, eq_ignore_ascii_case, same_text, text_view};

verus! {

// ---- the directories ----

/// The directories of a disc.
#[derive(Debug, Clone, Copy)]
pub struct Layout<'a> {
    /// `BDMV`.
    pub bdmv: &'a DirEntry,
    /// `BDMV/CLIPINF`.
    pub clipinf: &'a DirEntry,
    /// `BDMV/PLAYLIST`.
    pub playlist: &'a DirEntry,
    /// `BDMV/STREAM`.
    pub stream: Option<&'a DirEntry>,
    /// `BDMV/STREAM/SSIF`.
    pub ssif: Option<&'a DirEntry>,
    /// `BDMV/META`.
    pub meta: Option<&'a DirEntry>,
    /// `BDMV/BDJO`.
    pub bdjo: Option<&'a DirEntry>,
    /// `SNP`.
    pub snp: Option<&'a DirEntry>,
}

/// What a [`Layout`] holds.
pub struct LayoutView {
    pub bdmv: DirEntry,
    pub clipinf: DirEntry,
    pub playlist: DirEntry,
    pub stream: Option<DirEntry>,
    pub ssif: Option<DirEntry>,
    pub meta: Option<DirEntry>,
    pub bdjo: Option<DirEntry>,
    pub snp: Option<DirEntry>,
}

impl<'a> View for Layout<'a> {
    type V = LayoutView;

    open spec fn view(&self) -> LayoutView {
        LayoutView {
            bdmv: *self.bdmv,
            clipinf: *self.clipinf,
            playlist: *self.playlist,
            stream: dir_value(self.stream),
            ssif: dir_value(self.ssif),
            meta: dir_value(self.meta),
            bdjo: dir_value(self.bdjo),
            snp: dir_value(self.snp),
        }
    }
}

/// Why there is nothing to scan at `root`: it has no `BDMV` with a `CLIPINF` and a
/// `PLAYLIST` in it, or they cannot be looked for.
pub open spec fn lacking(root: DirEntry) -> Option<Failure> {
    match child(root, "BDMV"@) {
        Err(f) => Some(f),
        Ok(None) => Some(Failure::StructureNotFound),
        Ok(Some(bdmv)) => match (child(bdmv, "CLIPINF"@), child(bdmv, "PLAYLIST"@)) {
            (Err(f), _) => Some(f),
            (_, Err(f)) => Some(f),
            (Ok(Some(_)), Ok(Some(_))) => None,
            _ => Some(Failure::StructureNotFound),
        },
    }
}

/// The directory of the interleaved files, and the notes after it was looked for. Where the
/// stream directory cannot be listed, a resilient scan goes on without.
pub open spec fn ssif_step(stream: Option<DirEntry>, notes: Option<Seq<Note>>) -> (
    Result<Option<DirEntry>, Failure>,
    Option<Seq<Note>>,
) {
    match stream {
        Some(d) => absorbed(notes, d.name@, None, child(d, "SSIF"@)),
        None => (Ok(None), notes),
    }
}

/// The directories of the disc at `root`, or why there is nothing to scan, and the notes
/// after they were looked for.
pub open spec fn layout_of(root: DirEntry, notes: Option<Seq<Note>>) -> (
    Result<LayoutView, Failure>,
    Option<Seq<Note>>,
) {
    match child(root, "BDMV"@) {
        Err(f) => (Err(f), notes),
        Ok(None) => (Err(Failure::StructureNotFound), notes),
        Ok(Some(bdmv)) => match (
            child(bdmv, "CLIPINF"@),
            child(bdmv, "PLAYLIST"@),
            child(bdmv, "STREAM"@),
            child(bdmv, "META"@),
            child(bdmv, "BDJO"@),
            child(root, "SNP"@),
        ) {
            (Ok(clipinf), Ok(playlist), Ok(stream), Ok(meta), Ok(bdjo), Ok(snp)) => {
                let (found, after) = ssif_step(stream, notes);
                match (found, clipinf, playlist) {
                    (Err(f), _, _) => (Err(f), after),
                    (Ok(ssif), Some(clipinf), Some(playlist)) => (
                        Ok(LayoutView { bdmv, clipinf, playlist, stream, ssif, meta, bdjo, snp }),
                        after,
                    ),
                    _ => (Err(Failure::StructureNotFound), after),
                }
            },
            (Err(f), _, _, _, _, _) => (Err(f), notes),
            (_, Err(f), _, _, _, _) => (Err(f), notes),
            (_, _, Err(f), _, _, _) => (Err(f), notes),
            (_, _, _, Err(f), _, _) => (Err(f), notes),
            (_, _, _, _, Err(f), _) => (Err(f), notes),
            (_, _, _, _, _, Err(f)) => (Err(f), notes),
        },
    }
}

/// Finds the directories of the disc at `root`.
///
/// Fails with [`BdError::StructureNotFound`] where there is no `BDMV`, or no `CLIPINF` or
/// `PLAYLIST` in it, and with the listing's failure where one of them cannot be looked for.
/// A stream directory that cannot be listed ends a strict scan; a resilient one notes it.
pub fn locate<'a>(root: &'a DirEntry, sink: &mut Sink) -> (r: Result<Layout<'a>, BdError>)
    ensures
        match layout_of(*root, old(sink)@).0 {
            Ok(layout) => r is Ok && r->Ok_0@ == layout,
            Err(f) => r is Err && r->Err_0@ == f,
        },
        final(sink)@ == layout_of(*root, old(sink)@).1,
{
    let bdmv = match find_directory(root, BdmvDir::Bdmv)? {
        Some(dir) => dir,
        None => {
            return Err(BdError::StructureNotFound);
        },
    };
    let clipinf = find_directory(bdmv, BdmvDir::ClipInf)?;
    let playlist = find_directory(bdmv, BdmvDir::Playlist)?;
    let stream = find_directory(bdmv, BdmvDir::Stream)?;
    let meta = find_directory(bdmv, BdmvDir::Meta)?;
    let bdjo = find_directory(bdmv, BdmvDir::BdJo)?;
    let snp = find_directory(root, BdmvDir::Snp)?;
    let ssif = match stream {
        Some(dir) => sink.absorb(
            ScanStage::Discovery,
            dir.name.as_str(),
            None,
            find_directory(dir, BdmvDir::Ssif),
        )?,
        None => None,
    };
    match (clipinf, playlist) {
        (Some(clipinf), Some(playlist)) => Ok(
            Layout { bdmv, clipinf, playlist, stream, ssif, meta, bdjo, snp },
        ),
        _ => Err(BdError::StructureNotFound),
    }
}

// ---- the backups ----

/// The files of a directory; of one that is not there, none.
#[derive(Debug, Clone, Copy)]
pub struct Listing<'a> {
    /// The files, where there are any.
    pub files: Option<&'a Vec<FileEntry>>,
}

impl<'a> View for Listing<'a> {
    type V = Seq<FileEntry>;

    open spec fn view(&self) -> Seq<FileEntry> {
        match self.files {
            Some(files) => files@,
            None => Seq::empty(),
        }
    }
}

/// The last of the first `n` files whose upper-cased name is that of `name`.
pub open spec fn stand_in(pool: Seq<FileEntry>, name: Seq<char>, n: int) -> Option<FileEntry>
    decreases n,
{
    if n <= 0 {
        None
    } else if same_text(pool[n - 1].name@, name) {
        Some(pool[n - 1])
    } else {
        stand_in(pool, name, n - 1)
    }
}

/// The file that stands in for one of this name.
pub open spec fn backup_of(pool: Seq<FileEntry>, name: Seq<char>) -> Option<FileEntry> {
    stand_in(pool, name, pool.len() as int)
}

impl<'a> Listing<'a> {
    /// No files.
    pub fn none() -> (r: Self)
        ensures
            r@ == Seq::<FileEntry>::empty(),
    {
        Listing { files: None }
    }

    /// Whether there are no files.
    pub fn is_empty(&self) -> (r: bool)
        ensures
            r == (self@.len() == 0),
    {
        match self.files {
            Some(files) => files.len() == 0,
            None => true,
        }
    }

    /// The file that stands in for one called `name`.
    #[verifier::loop_isolation(false)]
    pub fn get(&self, name: &str) -> (r: Option<&'a FileEntry>)
        ensures
            match backup_of(self@, name@) {
                Some(f) => r == Some(&f),
                None => r is None,
            },
    {
        let files = match self.files {
            Some(files) => files,
            None => {
                return None;
            },
        };
        let mut n: usize = files.len();
        while n > 0
            invariant
                n <= files@.len(),
                stand_in(files@, name@, n as int) == backup_of(files@, name@),
            decreases n,
        {
            n = n - 1;
            if eq_ignore_ascii_case(files[n].name.as_str(), name) {
                return Some(&files[n]);
            }
        }
        None
    }

    /// Whether a file stands in for one called `name`.
    pub fn contains_key(&self, name: &str) -> (r: bool)
        ensures
            r == (backup_of(self@, name@) is Some),
    {
        self.get(name).is_some()
    }
}

/// A directory's files, or why they are not known.
pub open spec fn listed(dir: DirEntry) -> Result<Seq<FileEntry>, Failure> {
    match dir.files {
        Ok(files) => Ok(files@),
        Err(e) => Err(e@),
    }
}

/// The files of a directory's child; without the child there are none.
pub open spec fn listed_child(dir: DirEntry, name: Seq<char>) -> Result<Seq<FileEntry>, Failure> {
    match child(dir, name) {
        Ok(Some(d)) => listed(d),
        Ok(None) => Ok(Seq::empty()),
        Err(f) => Err(f),
    }
}

/// Lists a directory's files.
pub fn list_backup_files<'a>(dir: &'a DirEntry) -> (r: Result<Listing<'a>, BdError>)
    ensures
        match listed(*dir) {
            Ok(files) => r is Ok && r->Ok_0@ == files,
            Err(f) => r is Err && r->Err_0@ == f,
        },
{
    match &dir.files {
        Ok(files) => Ok(Listing { files: Some(files) }),
        Err(e) => Err(e.duplicate()),
    }
}

/// Lists the files of the child `which` of a backup directory; without the child there are
/// none.
pub fn backup_subdir_files<'a>(backup: &'a DirEntry, which: BdmvDir) -> (r: Result<
    Listing<'a>,
    BdError,
>)
    ensures
        match listed_child(*backup, which.named()) {
            Ok(files) => r is Ok && r->Ok_0@ == files,
            Err(f) => r is Err && r->Err_0@ == f,
        },
{
    match find_directory(backup, which)? {
        Some(dir) => list_backup_files(dir),
        None => Ok(Listing::none()),
    }
}

/// The files of `BDMV/BACKUP`: the index's, the playlists', the clip information's.
#[derive(Debug, Clone, Copy)]
pub struct Backups<'a> {
    /// The files of `BACKUP` itself.
    pub index: Listing<'a>,
    /// The files of `BACKUP/PLAYLIST`.
    pub playlist: Listing<'a>,
    /// The files of `BACKUP/CLIPINF`.
    pub clipinf: Listing<'a>,
}

/// What [`Backups`] hold.
pub struct BackupsView {
    pub index: Seq<FileEntry>,
    pub playlist: Seq<FileEntry>,
    pub clipinf: Seq<FileEntry>,
}

impl<'a> View for Backups<'a> {
    type V = BackupsView;

    open spec fn view(&self) -> BackupsView {
        BackupsView { index: self.index@, playlist: self.playlist@, clipinf: self.clipinf@ }
    }
}

/// No backups.
pub open spec fn no_backups() -> BackupsView {
    BackupsView { index: Seq::empty(), playlist: Seq::empty(), clipinf: Seq::empty() }
}

/// The backups that a `BDMV` directory has, or why they are not known.
pub open spec fn backups_of(bdmv: DirEntry) -> Result<BackupsView, Failure> {
    match child(bdmv, "BACKUP"@) {
        Err(f) => Err(f),
        Ok(None) => Ok(no_backups()),
        Ok(Some(backup)) => match (
            listed(backup),
            listed_child(backup, "PLAYLIST"@),
            listed_child(backup, "CLIPINF"@),
        ) {
            (Ok(index), Ok(playlist), Ok(clipinf)) => Ok(
                BackupsView { index, playlist, clipinf },
            ),
            (Err(f), _, _) => Err(f),
            (_, Err(f), _) => Err(f),
            (_, _, Err(f)) => Err(f),
        },
    }
}

/// Lists the backups that a `BDMV` directory has.
pub fn collect_backups<'a>(bdmv: &'a DirEntry) -> (r: Result<Backups<'a>, BdError>)
    ensures
        match backups_of(*bdmv) {
            Ok(backups) => r is Ok && r->Ok_0@ == backups,
            Err(f) => r is Err && r->Err_0@ == f,
        },
{
    match find_directory(bdmv, BdmvDir::Backup)? {
        Some(backup) => {
            let index = list_backup_files(backup)?;
            let playlist = backup_subdir_files(backup, BdmvDir::Playlist)?;
            let clipinf = backup_subdir_files(backup, BdmvDir::ClipInf)?;
            Ok(Backups { index, playlist, clipinf })
        },
        None => Ok(
            Backups {
                index: Listing::none(),
                playlist: Listing::none(),
                clipinf: Listing::none(),
            },
        ),
    }
}

/// The backups that a scan may use, and the notes after they were looked for. A strict scan
/// uses none and does not look; a resilient one notes a failure to list them.
pub open spec fn usable_backups(bdmv: DirEntry, notes: Option<Seq<Note>>) -> (
    BackupsView,
    Option<Seq<Note>>,
) {
    if notes is None {
        (no_backups(), notes)
    } else {
        match backups_of(bdmv) {
            Ok(backups) => (backups, notes),
            Err(f) => (no_backups(), noted(notes, ScanStage::Discovery, "BACKUP"@, f)),
        }
    }
}

/// Looks for the backups that a scan may use.
pub fn discover_backups<'a>(bdmv: &'a DirEntry, sink: &mut Sink) -> (r: Backups<'a>)
    ensures
        (r@, final(sink)@) == usable_backups(*bdmv, old(sink)@),
{
    let none = Backups {
        index: Listing::none(),
        playlist: Listing::none(),
        clipinf: Listing::none(),
    };
    if !sink.is_resilient() {
        return none;
    }
    match collect_backups(bdmv) {
        Ok(backups) => backups,
        Err(reason) => {
            sink.record(ScanStage::Discovery, "BACKUP", reason);
            none
        },
    }
}

// ---- the index ----

/// Whether an index has its tag.
pub open spec fn index_tagged(bytes: Seq<u8>) -> bool {
    bytes.len() >= 4 && bytes[0] == 0x49 && bytes[1] == 0x4E && bytes[2] == 0x44 && bytes[3] == 0x58
}

/// Whether an index is that of an Ultra HD disc: its version is `0300`.
pub open spec fn index_uhd(bytes: Seq<u8>) -> bool {
    index_tagged(bytes) && bytes.len() >= 8 && bytes[4] == 0x30 && bytes[5] == 0x33 && bytes[6]
        == 0x30 && bytes[7] == 0x30
}

/// The eight characters that an index starts with; a shorter one has none.
pub open spec fn index_version(bytes: Seq<u8>) -> Seq<char> {
    match rd_text(bytes, 0, 8) {
        Some(t) => t,
        None => Seq::empty(),
    }
}

/// Whether an index has its tag.
pub fn has_index_tag(bytes: &Vec<u8>) -> (r: bool)
    ensures
        r == index_tagged(bytes@),
{
    bytes.len() >= 4 && bytes[0] == 0x49 && bytes[1] == 0x4E && bytes[2] == 0x44 && bytes[3] == 0x58
}

/// Whether an index is that of an Ultra HD disc.
pub fn is_uhd_index(bytes: &Vec<u8>) -> (r: bool)
    ensures
        r == index_uhd(bytes@),
{
    has_index_tag(bytes) && bytes.len() >= 8 && bytes[4] == 0x30 && bytes[5] == 0x33 && bytes[6]
        == 0x30 && bytes[7] == 0x30
}

/// The first of the files, from the `i`th on, that is called `name`.
pub open spec fn first_named(files: Seq<FileEntry>, name: Seq<char>, i: int) -> Option<FileEntry>
    decreases files.len() - i,
{
    if i < 0 || i >= files.len() {
        None
    } else if same_text(files[i].name@, name) {
        Some(files[i])
    } else {
        first_named(files, name, i + 1)
    }
}

/// The first of the files that is called `name`.
fn find_named<'a>(files: &'a Vec<FileEntry>, name: &str) -> (r: Option<&'a FileEntry>)
    ensures
        match first_named(files@, name@, 0) {
            Some(f) => r == Some(&f),
            None => r is None,
        },
{
    let mut i: usize = 0;
    while i < files.len()
        invariant
            i <= files@.len(),
            first_named(files@, name@, i as int) == first_named(files@, name@, 0),
        decreases files@.len() - i,
    {
        if eq_ignore_ascii_case(files[i].name.as_str(), name) {
            return Some(&files[i]);
        }
        i = i + 1;
    }
    None
}

/// The bytes of the disc's index; a disc without one has none.
pub open spec fn index_bytes(bdmv: DirEntry) -> Result<Option<Seq<u8>>, Failure> {
    match bdmv.files {
        Err(e) => Err(e@),
        Ok(files) => match first_named(files@, "index.bdmv"@, 0) {
            None => Ok(None),
            Some(f) => match capped_content(f, MAX_METADATA_BYTES) {
                Ok(bytes) => Ok(Some(bytes)),
                Err(f) => Err(f),
            },
        },
    }
}

/// The view of optional bytes.
pub open spec fn bytes_view(bytes: Option<&Vec<u8>>) -> Option<Seq<u8>> {
    match bytes {
        Some(b) => Some(b@),
        None => None,
    }
}

/// Reads the disc's index.
pub fn read_index_bytes<'a>(bdmv: &'a DirEntry) -> (r: Result<Option<&'a Vec<u8>>, BdError>)
    ensures
        match index_bytes(*bdmv) {
            Ok(bytes) => r is Ok && bytes_view(r->Ok_0) == bytes,
            Err(f) => r is Err && r->Err_0@ == f,
        },
{
    match &bdmv.files {
        Ok(files) => match find_named(files, "index.bdmv") {
            Some(file) => match read_file(file) {
                Ok(bytes) => Ok(Some(bytes)),
                Err(e) => Err(e),
            },
            None => Ok(None),
        },
        Err(e) => Err(e.duplicate()),
    }
}

/// The bytes of the file that stands in for one called `name`, where it can be read.
pub open spec fn backup_bytes(pool: Seq<FileEntry>, name: Seq<char>) -> Option<Seq<u8>> {
    match backup_of(pool, name) {
        Some(f) => match capped_content(f, MAX_METADATA_BYTES) {
            Ok(bytes) => Some(bytes),
            Err(_) => None,
        },
        None => None,
    }
}

/// Whether a tagged index says Ultra HD; an index without a tag is noted, and its backup
/// decides.
pub open spec fn uhd_by(bytes: Option<Seq<u8>>, pool: Seq<FileEntry>, notes: Option<Seq<Note>>) -> (
    bool,
    Option<Seq<Note>>,
) {
    match bytes {
        None => (false, notes),
        Some(b) => if index_tagged(b) {
            (index_uhd(b), notes)
        } else {
            (
                match backup_bytes(pool, "index.bdmv"@) {
                    Some(copy) => index_uhd(copy),
                    None => false,
                },
                noted(
                    notes,
                    ScanStage::Discovery,
                    "index.bdmv"@,
                    Failure::UnknownFileType(index_version(b)),
                ),
            )
        },
    }
}

/// Whether the disc is an Ultra HD one, and the notes after that was read. An index that
/// cannot be read is noted, and in a resilient scan its backup is read instead.
pub open spec fn uhd_flag(bdmv: DirEntry, pool: Seq<FileEntry>, notes: Option<Seq<Note>>) -> (
    Result<bool, Failure>,
    Option<Seq<Note>>,
) {
    match index_bytes(bdmv) {
        Ok(bytes) => {
            let (uhd, after) = uhd_by(bytes, pool, notes);
            (Ok(uhd), after)
        },
        Err(f) => {
            let after = noted(notes, ScanStage::Discovery, "index.bdmv"@, f);
            if notes is None {
                (Err(f), after)
            } else {
                let (uhd, last) = uhd_by(backup_bytes(pool, "index.bdmv"@), pool, after);
                (Ok(uhd), last)
            }
        },
    }
}

/// Reads whether the disc is an Ultra HD one.
pub fn read_uhd_flag<'a>(bdmv: &'a DirEntry, backup_index: &Listing<'a>, sink: &mut Sink) -> (r:
    Result<bool, BdError>)
    ensures
        match uhd_flag(*bdmv, backup_index@, old(sink)@).0 {
            Ok(uhd) => r == Ok::<bool, BdError>(uhd),
            Err(f) => r is Err && r->Err_0@ == f,
        },
        final(sink)@ == uhd_flag(*bdmv, backup_index@, old(sink)@).1,
{
    let copy: Option<&'a Vec<u8>> = match backup_index.get("index.bdmv") {
        Some(file) => match read_file(file) {
            Ok(bytes) => Some(bytes),
            Err(_) => None,
        },
        None => None,
    };
    assert(bytes_view(copy) == backup_bytes(backup_index@, "index.bdmv"@));
    let backup: Option<Result<Option<&'a Vec<u8>>, BdError>> = match copy {
        Some(bytes) => Some(Ok(Some(bytes))),
        None => None,
    };
    let bytes = sink.absorb_with_backup(
        ScanStage::Discovery,
        "index.bdmv",
        None,
        read_index_bytes(bdmv),
        backup,
    )?;
    let index = match bytes {
        Some(index) => index,
        None => {
            return Ok(false);
        },
    };
    if has_index_tag(index) {
        return Ok(is_uhd_index(index));
    }
    let version = match read_ascii(index.as_slice(), 0, 8) {
        Some(version) => version,
        None => String::new(),
    };
    sink.record(ScanStage::Discovery, "index.bdmv", BdError::UnknownFileType(version));
    match copy {
        Some(bytes) => Ok(is_uhd_index(bytes)),
        None => Ok(false),
    }
}

// ---- the title ----

/// The first file called `bdmt_eng.xml` in a directory or below it, its own files before
/// those of its directories; or the first failure to list a part of it.
pub open spec fn title_file(dir: DirEntry) -> Result<Option<FileEntry>, Failure>
    decreases
            dir,
            match dir.dirs {
                Ok(dirs) => dirs@.len() + 1,
                Err(_) => 0,
            },
{
    match dir.files {
        Err(e) => Err(e@),
        Ok(files) => match dir.dirs {
            Err(e) => Err(e@),
            Ok(dirs) => match title_below(dir, dirs@.len() as int) {
                Err(f) => Err(f),
                Ok(below) => match first_named(files@, "bdmt_eng.xml"@, 0) {
                    Some(file) => Ok(Some(file)),
                    None => Ok(below),
                },
            },
        },
    }
}

/// The first file called `bdmt_eng.xml` in or below the first `n` directories of a
/// directory.
pub open spec fn title_below(dir: DirEntry, n: int) -> Result<Option<FileEntry>, Failure>
    decreases dir, n,
    when dir.dirs is Ok && n <= dir.dirs->Ok_0@.len()
{
    if n <= 0 {
        Ok(None)
    } else {
        match title_below(dir, n - 1) {
            Err(f) => Err(f),
            Ok(found) => match title_file(dir.dirs->Ok_0@[n - 1]) {
                Err(f) => Err(f),
                Ok(next) => match found {
                    Some(file) => Ok(Some(file)),
                    None => Ok(next),
                },
            },
        }
    }
}

proof fn lemma_title_fails_early(dir: DirEntry, k: int, n: int)
    requires
        dir.dirs is Ok,
        k <= n <= dir.dirs->Ok_0@.len(),
        title_below(dir, k) is Err,
    ensures
        title_below(dir, n) == title_below(dir, k),
    decreases n - k,
{
    if k < n {
        lemma_title_fails_early(dir, k, n - 1);
    }
}

/// An optional file as a value.
pub open spec fn file_value(file: Option<&FileEntry>) -> Option<FileEntry> {
    match file {
        Some(f) => Some(*f),
        None => None,
    }
}

/// Finds the first file called `bdmt_eng.xml` in a directory or below it.
#[verifier::loop_isolation(false)]
pub fn find_title_file<'a>(dir: &'a DirEntry) -> (r: Result<Option<&'a FileEntry>, BdError>)
    ensures
        match title_file(*dir) {
            Ok(file) => r is Ok && file_value(r->Ok_0) == file,
            Err(f) => r is Err && r->Err_0@ == f,
        },
    decreases dir,
{
    let files = match &dir.files {
        Ok(files) => files,
        Err(e) => {
            return Err(e.duplicate());
        },
    };
    let dirs = match &dir.dirs {
        Ok(dirs) => dirs,
        Err(e) => {
            return Err(e.duplicate());
        },
    };
    let mut below: Option<&'a FileEntry> = None;
    let mut k: usize = 0;
    while k < dirs.len()
        invariant
            k <= dirs@.len(),
            title_below(*dir, k as int) == Ok::<Option<FileEntry>, Failure>(file_value(below)),
        decreases dirs@.len() - k,
    {
        proof {
            assert(dir.dirs->Ok_0@[k as int] == dirs@[k as int]);
            if title_file(dirs@[k as int]) is Err {
                lemma_title_fails_early(*dir, k + 1, dirs@.len() as int);
            }
        }
        let next = find_title_file(&dirs[k])?;
        if below.is_none() {
            below = next;
        }
        k = k + 1;
    }
    match find_named(files, "bdmt_eng.xml") {
        Some(file) => Ok(Some(file)),
        None => Ok(below),
    }
}

/// The title that the bytes of a disc-info file give.
pub open spec fn title_in_bytes(bytes: Seq<u8>) -> Option<Seq<char>> {
    if lossy_text(bytes).len() <= MAX_XML_CHARS {
        title_in(lossy_text(bytes))
    } else {
        None
    }
}

/// The disc title that the `META` directory holds.
pub open spec fn meta_title(meta: DirEntry) -> Result<Option<Seq<char>>, Failure> {
    match title_file(meta) {
        Err(f) => Err(f),
        Ok(None) => Ok(None),
        Ok(Some(file)) => match capped_content(file, MAX_METADATA_BYTES) {
            Ok(bytes) => Ok(title_in_bytes(bytes)),
            Err(f) => Err(f),
        },
    }
}

/// Reads the disc title that the `META` directory holds.
pub fn read_meta_title(meta: &DirEntry) -> (r: Result<Option<String>, BdError>)
    ensures
        match meta_title(*meta) {
            Ok(title) => r is Ok && text_view(r->Ok_0) == title,
            Err(f) => r is Err && r->Err_0@ == f,
        },
{
    match find_title_file(meta)? {
        Some(file) => match read_file(file) {
            Ok(bytes) => Ok(read_disc_title_from(bytes.as_slice())),
            Err(e) => Err(e),
        },
        None => Ok(None),
    }
}

// ---- the disc-level facts ----

/// The outcome of a step and the notes after it.
pub open spec fn absorbed<T>(
    notes: Option<Seq<Note>>,
    file: Seq<char>,
    fallback: T,
    result: Result<T, Failure>,
) -> (Result<T, Failure>, Option<Seq<Note>>) {
    match result {
        Ok(v) => (Ok(v), notes),
        Err(f) => if notes is None {
            (Err(f), notes)
        } else {
            (Ok(fallback), noted(notes, ScanStage::Discovery, file, f))
        },
    }
}

/// What is known of a disc before its playlists are read.
#[derive(Debug)]
pub struct DiscLevel {
    /// The volume label.
    pub volume_label: String,
    /// The disc title.
    pub disc_title: Option<String>,
    /// The size without the interleaved files.
    pub size: u64,
    /// The size of the interleaved files.
    pub interleaved_size: u64,
    /// Whether it is a 3D disc.
    pub is_3d: bool,
    /// Whether it is an Ultra HD disc.
    pub is_uhd: bool,
    /// Whether the stream files are encrypted.
    pub is_aacs_encrypted: bool,
    /// Whether it has BD+ protection.
    pub is_bd_plus: bool,
    /// Whether it has BD-Java.
    pub is_bd_java: bool,
    /// Whether it has D-BOX motion code.
    pub is_dbox: bool,
    /// Whether it has PSP content.
    pub is_psp: bool,
}

/// What a [`DiscLevel`] holds.
pub struct LevelView {
    pub volume_label: Seq<char>,
    pub disc_title: Option<Seq<char>>,
    pub size: u64,
    pub interleaved_size: u64,
    pub is_3d: bool,
    pub is_uhd: bool,
    pub is_aacs_encrypted: bool,
    pub is_bd_plus: bool,
    pub is_bd_java: bool,
    pub is_dbox: bool,
    pub is_psp: bool,
}

impl View for DiscLevel {
    type V = LevelView;

    open spec fn view(&self) -> LevelView {
        LevelView {
            volume_label: self.volume_label@,
            disc_title: text_view(self.disc_title),
            size: self.size,
            interleaved_size: self.interleaved_size,
            is_3d: self.is_3d,
            is_uhd: self.is_uhd,
            is_aacs_encrypted: self.is_aacs_encrypted,
            is_bd_plus: self.is_bd_plus,
            is_bd_java: self.is_bd_java,
            is_dbox: self.is_dbox,
            is_psp: self.is_psp,
        }
    }
}

/// The two sizes of a disc.
pub open spec fn disc_sizes(root: DirEntry) -> Result<(u64, u64), Failure> {
    match tree_size(root) {
        Ok((plain, interleaved)) => Ok((capped(plain), capped(interleaved))),
        Err(f) => Err(f),
    }
}

/// Whether a disc has BD+ protection.
pub open spec fn bd_plus(root: DirEntry) -> Result<bool, Failure> {
    match root.dirs {
        Ok(dirs) => Ok(
            exists|i: int| 0 <= i < dirs@.len() && #[trigger] is_bd_plus_name(dirs@[i].name@),
        ),
        Err(e) => Err(e@),
    }
}

/// Whether a directory that may not be there has any file, and the notes after it was
/// looked at.
pub open spec fn any_file(dir: Option<DirEntry>, notes: Option<Seq<Note>>) -> (
    Result<bool, Failure>,
    Option<Seq<Note>>,
) {
    match dir {
        Some(d) => absorbed(
            notes,
            d.name@,
            false,
            match d.files {
                Ok(files) => Ok(files@.len() > 0),
                Err(e) => Err(e@),
            },
        ),
        None => (Ok(false), notes),
    }
}

/// Whether a directory that may not be there has a `*.mnv` file, and the notes after it
/// was looked at.
pub open spec fn any_mnv(dir: Option<DirEntry>, notes: Option<Seq<Note>>) -> (
    Result<bool, Failure>,
    Option<Seq<Note>>,
) {
    match dir {
        Some(d) => absorbed(
            notes,
            d.name@,
            false,
            match d.files {
                Ok(files) => Ok(
                    exists|i: int|
                        0 <= i < files@.len() && #[trigger] ends_like(files@[i].name@, ".mnv"@),
                ),
                Err(e) => Err(e@),
            },
        ),
        None => (Ok(false), notes),
    }
}

/// Whether a disc has D-BOX motion code.
pub open spec fn film_index(root: DirEntry) -> Result<bool, Failure> {
    match root.files {
        Ok(files) => Ok(any_named(files@, "FilmIndex.xml"@)),
        Err(e) => Err(e@),
    }
}

/// The disc title, and the notes after it was looked for.
pub open spec fn title_step(meta: Option<DirEntry>, notes: Option<Seq<Note>>) -> (
    Result<Option<Seq<char>>, Failure>,
    Option<Seq<Note>>,
) {
    match meta {
        Some(m) => absorbed(notes, m.name@, None, meta_title(m)),
        None => (Ok(None), notes),
    }
}

/// The second half of the disc-level facts: all but the sizes and the Ultra HD flag.
pub open spec fn level_rest(
    root: DirEntry,
    l: LayoutView,
    sizes: (u64, u64),
    is_uhd: bool,
    notes: Option<Seq<Note>>,
) -> (Result<LevelView, Failure>, Option<Seq<Note>>) {
    let (plus, n1) = absorbed(notes, root.name@, false, bd_plus(root));
    match plus {
        Err(f) => (Err(f), n1),
        Ok(is_bd_plus) => {
            let (java, n2) = any_file(l.bdjo, n1);
            match java {
                Err(f) => (Err(f), n2),
                Ok(is_bd_java) => {
                    let (psp, n3) = any_mnv(l.snp, n2);
                    match psp {
                        Err(f) => (Err(f), n3),
                        Ok(is_psp) => {
                            let (dbox, n4) = absorbed(n3, root.name@, false, film_index(root));
                            match dbox {
                                Err(f) => (Err(f), n4),
                                Ok(is_dbox) => {
                                    let (ssif, n5) = any_file(l.ssif, n4);
                                    match ssif {
                                        Err(f) => (Err(f), n5),
                                        Ok(is_3d) => {
                                            let (title, n6) = title_step(l.meta, n5);
                                            match title {
                                                Err(f) => (Err(f), n6),
                                                Ok(disc_title) => (
                                                    Ok(
                                                        LevelView {
                                                            volume_label: root.name@,
                                                            disc_title,
                                                            size: sizes.0,
                                                            interleaved_size: sizes.1,
                                                            is_3d,
                                                            is_uhd,
                                                            is_aacs_encrypted: has_key_file(root)
                                                                && match l.stream {
                                                                Some(d) => content_encrypted(d),
                                                                None => false,
                                                            },
                                                            is_bd_plus,
                                                            is_bd_java,
                                                            is_dbox,
                                                            is_psp,
                                                        },
                                                    ),
                                                    n6,
                                                ),
                                            }
                                        },
                                    }
                                },
                            }
                        },
                    }
                },
            }
        },
    }
}

/// The disc-level facts, and the notes after they were read: the sizes, then the flags,
/// then the title. A fact that cannot be read ends a strict scan; in a resilient one it is
/// noted and left at nothing.
pub open spec fn level_of(
    root: DirEntry,
    l: LayoutView,
    backup_index: Seq<FileEntry>,
    notes: Option<Seq<Note>>,
) -> (Result<LevelView, Failure>, Option<Seq<Note>>) {
    let (sizes, n1) = absorbed(notes, root.name@, (0u64, 0u64), disc_sizes(root));
    match sizes {
        Err(f) => (Err(f), n1),
        Ok(sizes) => {
            let (uhd, n2) = uhd_flag(l.bdmv, backup_index, n1);
            match uhd {
                Err(f) => (Err(f), n2),
                Ok(is_uhd) => level_rest(root, l, sizes, is_uhd, n2),
            }
        },
    }
}

/// Whether a directory that may not be there has any file.
fn read_any_file(dir: Option<&DirEntry>, sink: &mut Sink) -> (r: Result<bool, BdError>)
    ensures
        match any_file(dir_value(dir), old(sink)@).0 {
            Ok(v) => r == Ok::<bool, BdError>(v),
            Err(f) => r is Err && r->Err_0@ == f,
        },
        final(sink)@ == any_file(dir_value(dir), old(sink)@).1,
{
    match dir {
        Some(d) => sink.absorb(ScanStage::Discovery, d.name.as_str(), false, has_any_file(d)),
        None => Ok(false),
    }
}

/// Whether a directory that may not be there has a `*.mnv` file.
fn read_any_mnv(dir: Option<&DirEntry>, sink: &mut Sink) -> (r: Result<bool, BdError>)
    ensures
        match any_mnv(dir_value(dir), old(sink)@).0 {
            Ok(v) => r == Ok::<bool, BdError>(v),
            Err(f) => r is Err && r->Err_0@ == f,
        },
        final(sink)@ == any_mnv(dir_value(dir), old(sink)@).1,
{
    match dir {
        Some(d) => sink.absorb(ScanStage::Discovery, d.name.as_str(), false, has_mnv_file(d)),
        None => Ok(false),
    }
}

/// Reads the disc title.
fn read_title(meta: Option<&DirEntry>, sink: &mut Sink) -> (r: Result<Option<String>, BdError>)
    ensures
        match title_step(dir_value(meta), old(sink)@).0 {
            Ok(v) => r is Ok && text_view(r->Ok_0) == v,
            Err(f) => r is Err && r->Err_0@ == f,
        },
        final(sink)@ == title_step(dir_value(meta), old(sink)@).1,
{
    match meta {
        Some(m) => sink.absorb(ScanStage::Discovery, m.name.as_str(), None, read_meta_title(m)),
        None => Ok(None),
    }
}

/// Reads the disc-level facts but for the sizes and the Ultra HD flag.
fn read_level_rest<'a>(
    root: &'a DirEntry,
    layout: &Layout<'a>,
    size: u64,
    interleaved_size: u64,
    is_uhd: bool,
    sink: &mut Sink,
) -> (r: Result<DiscLevel, BdError>)
    ensures
        match level_rest(*root, layout@, (size, interleaved_size), is_uhd, old(sink)@).0 {
            Ok(level) => r is Ok && r->Ok_0@ == level,
            Err(f) => r is Err && r->Err_0@ == f,
        },
        final(sink)@ == level_rest(
            *root,
            layout@,
            (size, interleaved_size),
            is_uhd,
            old(sink)@,
        ).1,
{
    let name = root.name.as_str();
    let is_aacs_encrypted = detect_aacs_encryption(root, layout.stream);
    let is_bd_plus = sink.absorb(ScanStage::Discovery, name, false, has_bd_plus_dir(root))?;
    let is_bd_java = read_any_file(layout.bdjo, sink)?;
    let is_psp = read_any_mnv(layout.snp, sink)?;
    let is_dbox = sink.absorb(ScanStage::Discovery, name, false, has_film_index(root))?;
    let is_3d = read_any_file(layout.ssif, sink)?;
    let disc_title = read_title(layout.meta, sink)?;
    Ok(
        DiscLevel {
            volume_label: root.name.clone(),
            disc_title,
            size,
            interleaved_size,
            is_3d,
            is_uhd,
            is_aacs_encrypted,
            is_bd_plus,
            is_bd_java,
            is_dbox,
            is_psp,
        },
    )
}

/// Reads the disc-level facts.
pub fn read_disc_level<'a>(
    root: &'a DirEntry,
    layout: &Layout<'a>,
    backup_index: &Listing<'a>,
    sink: &mut Sink,
) -> (r: Result<DiscLevel, BdError>)
    ensures
        match level_of(*root, layout@, backup_index@, old(sink)@).0 {
            Ok(level) => r is Ok && r->Ok_0@ == level,
            Err(f) => r is Err && r->Err_0@ == f,
        },
        final(sink)@ == level_of(*root, layout@, backup_index@, old(sink)@).1,
{
    let (size, interleaved_size) = sink.absorb(
        ScanStage::Discovery,
        root.name.as_str(),
        (0, 0),
        directory_size(root),
    )?;
    let is_uhd = read_uhd_flag(layout.bdmv, backup_index, sink)?;
    read_level_rest(root, layout, size, interleaved_size, is_uhd, sink)
}

} // verus!
