//! Finding one's way on a disc: its directories, its size, its flags.
//!
//! A disc comes in as a tree of listings, in which a listing or a file that could not be
//! read stands as the failure it met. Names are compared without regard to ASCII case.

use vstd::prelude::*;
use vstd::string::*;

use super::disc::capped;
use crate::error::{BdError, Failure};
use crate::names::{put, NameTable};
use crate::text::{
    before, comes_before, ends_like, eq_ignore_ascii_case, has_ending, same_text,
    to_ascii_uppercase, upper,
};

verus! {

/// The most bytes that one metadata file may have.
pub const MAX_METADATA_BYTES: u64 = 0x400_0000;

/// How far above the input a `BDMV` directory is looked for.
pub const MAX_BDMV_ANCESTORS: usize = 64;

/// One source packet, bytes.
pub const SOURCE_PACKET_BYTES: usize = 192;

/// One aligned unit, the 32 source packets that are encrypted as one, bytes.
pub const ALIGNED_UNIT_BYTES: usize = 6144;

/// How many of the 31 encrypted sync bytes of an aligned unit may look right by chance.
pub const MAX_STRAY_SYNCS: usize = 3;

/// One file: its name, its length, and its bytes from the start on as far as they were
/// read.
#[derive(Debug)]
pub struct FileEntry {
    /// The name.
    pub name: String,
    /// The length, bytes.
    pub length: u64,
    /// The bytes that were read, or why none were.
    pub content: Result<Vec<u8>, BdError>,
}

/// One directory.
#[derive(Debug)]
pub struct DirEntry {
    /// The name.
    pub name: String,
    /// The files, or why they could not be listed.
    pub files: Result<Vec<FileEntry>, BdError>,
    /// The directories, or why they could not be listed.
    pub dirs: Result<Vec<DirEntry>, BdError>,
}

/// The directories of a disc that a scan knows by name.
#[derive(Debug, Clone, Copy, PartialEq, Eq, Structural)]
pub enum BdmvDir {
    Bdmv,
    ClipInf,
    Playlist,
    Stream,
    Ssif,
    Meta,
    BdJo,
    Snp,
    Backup,
}

impl BdmvDir {
    /// The directory's name.
    pub open spec fn named(self) -> Seq<char> {
        match self {
            BdmvDir::Bdmv => "BDMV"@,
            BdmvDir::ClipInf => "CLIPINF"@,
            BdmvDir::Playlist => "PLAYLIST"@,
            BdmvDir::Stream => "STREAM"@,
            BdmvDir::Ssif => "SSIF"@,
            BdmvDir::Meta => "META"@,
            BdmvDir::BdJo => "BDJO"@,
            BdmvDir::Snp => "SNP"@,
            BdmvDir::Backup => "BACKUP"@,
        }
    }

    /// The directory's name.
    pub fn name(self) -> (r: &'static str)
        ensures
            r@ == self.named(),
    {
        match self {
            BdmvDir::Bdmv => "BDMV",
            BdmvDir::ClipInf => "CLIPINF",
            BdmvDir::Playlist => "PLAYLIST",
            BdmvDir::Stream => "STREAM",
            BdmvDir::Ssif => "SSIF",
            BdmvDir::Meta => "META",
            BdmvDir::BdJo => "BDJO",
            BdmvDir::Snp => "SNP",
            BdmvDir::Backup => "BACKUP",
        }
    }
}

/// The kinds of files that a scan looks for.
#[derive(Debug, Clone, Copy, PartialEq, Eq, Structural)]
pub enum BdFileKind {
    /// `*.m2ts`, and its variant `*.fmts`.
    Stream,
    /// `*.ssif`.
    Interleaved,
    /// `*.mpls`.
    Playlist,
    /// `*.clpi`.
    ClipInfo,
}

/// Whether a file name is one of a kind.
pub open spec fn is_kind(name: Seq<char>, kind: BdFileKind) -> bool {
    match kind {
        BdFileKind::Stream => ends_like(name, ".m2ts"@) || ends_like(name, ".fmts"@),
        BdFileKind::Interleaved => ends_like(name, ".ssif"@),
        BdFileKind::Playlist => ends_like(name, ".mpls"@),
        BdFileKind::ClipInfo => ends_like(name, ".clpi"@),
    }
}

/// Whether a file name is one of a kind.
pub fn has_kind(name: &str, kind: BdFileKind) -> (r: bool)
    ensures
        r == is_kind(name@, kind),
{
    match kind {
        BdFileKind::Stream => has_ending(name, ".m2ts") || has_ending(name, ".fmts"),
        BdFileKind::Interleaved => has_ending(name, ".ssif"),
        BdFileKind::Playlist => has_ending(name, ".mpls"),
        BdFileKind::ClipInfo => has_ending(name, ".clpi"),
    }
}

// ---- directories ----

/// The first of the directories, from the `i`th on, that has the name.
pub open spec fn named_from(dirs: Seq<DirEntry>, name: Seq<char>, i: int) -> Option<DirEntry>
    decreases dirs.len() - i,
{
    if i < 0 || i >= dirs.len() {
        None
    } else if same_text(dirs[i].name@, name) {
        Some(dirs[i])
    } else {
        named_from(dirs, name, i + 1)
    }
}

/// The child of a directory that has the name, or why the children are not known.
pub open spec fn child(dir: DirEntry, name: Seq<char>) -> Result<Option<DirEntry>, Failure> {
    match dir.dirs {
        Ok(dirs) => Ok(named_from(dirs@, name, 0)),
        Err(e) => Err(e@),
    }
}

/// Finds the child `which` of a directory.
#[verifier::loop_isolation(false)]
pub fn find_directory<'a>(dir: &'a DirEntry, which: BdmvDir) -> (r: Result<
    Option<&'a DirEntry>,
    BdError,
>)
    ensures
        match child(*dir, which.named()) {
            Ok(found) => r is Ok && (match found {
                Some(d) => r->Ok_0 == Some(&d),
                None => r->Ok_0 is None,
            }),
            Err(f) => r is Err && r->Err_0@ == f,
        },
{
    match &dir.dirs {
        Ok(dirs) => {
            let name = which.name();
            let mut i: usize = 0;
            while i < dirs.len()
                invariant
                    i <= dirs@.len(),
                    name@ == which.named(),
                    named_from(dirs@, name@, i as int) == named_from(dirs@, name@, 0),
                decreases dirs@.len() - i,
            {
                if eq_ignore_ascii_case(dirs[i].name.as_str(), name) {
                    return Ok(Some(&dirs[i]));
                }
                i = i + 1;
            }
            Ok(None)
        },
        Err(e) => Err(e.duplicate()),
    }
}

/// Whether a directory is one that a scan can start from: it is named `BDMV`, and has the
/// clip information and the playlists. One that cannot be listed is not.
pub open spec fn scannable(dir: DirEntry) -> bool {
    &&& same_text(dir.name@, "BDMV"@)
    &&& child(dir, "CLIPINF"@) is Ok
    &&& child(dir, "CLIPINF"@)->Ok_0 is Some
    &&& child(dir, "PLAYLIST"@) is Ok
    &&& child(dir, "PLAYLIST"@)->Ok_0 is Some
}

/// Whether a directory is one that a scan can start from.
pub fn is_scannable_bdmv(dir: &DirEntry) -> (r: bool)
    ensures
        r == scannable(*dir),
{
    if !eq_ignore_ascii_case(dir.name.as_str(), "BDMV") {
        return false;
    }
    let clips = match find_directory(dir, BdmvDir::ClipInf) {
        Ok(found) => found.is_some(),
        Err(_) => false,
    };
    let playlists = match find_directory(dir, BdmvDir::Playlist) {
        Ok(found) => found.is_some(),
        Err(_) => false,
    };
    clips && playlists
}

/// The place of the first directory, from the `i`th on, that a scan can start from, no
/// further up than is looked.
pub open spec fn first_scannable(chain: Seq<DirEntry>, i: int) -> Option<int>
    decreases chain.len() - i,
{
    if i < 0 || i >= chain.len() || i > MAX_BDMV_ANCESTORS {
        None
    } else if scannable(chain[i]) {
        Some(i)
    } else {
        first_scannable(chain, i + 1)
    }
}

/// Where in a chain of a directory and its ancestors, the nearest first, the root of the
/// disc is: right above the first directory that a scan can start from. Where there is no
/// such directory, or nothing above it, the chain does not tell.
pub fn walked_disc_root(chain: &Vec<DirEntry>) -> (r: Option<usize>)
    ensures
        match first_scannable(chain@, 0) {
            Some(k) => if k + 1 < chain@.len() {
                r is Some && r->Some_0 as int == k + 1
            } else {
                r is None
            },
            None => r is None,
        },
{
    let mut i: usize = 0;
    while i < chain.len() && i <= MAX_BDMV_ANCESTORS
        invariant
            i <= chain@.len(),
            i <= MAX_BDMV_ANCESTORS + 1,
            first_scannable(chain@, i as int) == first_scannable(chain@, 0),
        decreases chain@.len() - i,
    {
        if is_scannable_bdmv(&chain[i]) {
            return if i + 1 < chain.len() {
                Some(i + 1)
            } else {
                None
            };
        }
        i = i + 1;
    }
    None
}

/// A name that a lone ancestor has by chance cannot mislead: what is taken for the root of
/// the disc has, right below it on the chain, a directory that a scan can start from.
pub proof fn lemma_walked_root_is_above_a_scannable_directory(chain: Seq<DirEntry>, i: int)
    requires
        0 <= i,
    ensures
        match first_scannable(chain, i) {
            Some(k) => i <= k < chain.len() && k <= MAX_BDMV_ANCESTORS && scannable(chain[k]),
            None => true,
        },
    decreases chain.len() - i,
{
    if i < chain.len() && i <= MAX_BDMV_ANCESTORS && !scannable(chain[i]) {
        lemma_walked_root_is_above_a_scannable_directory(chain, i + 1);
    }
}

// ---- sizes ----

/// The bytes of the first `n` files: of the interleaved ones, or of the others.
pub open spec fn files_bytes(files: Seq<FileEntry>, interleaved: bool, n: int) -> int
    decreases n,
{
    if n <= 0 {
        0
    } else {
        files_bytes(files, interleaved, n - 1) + (if ends_like(files[n - 1].name@, ".ssif"@)
            == interleaved {
            files[n - 1].length as int
        } else {
            0
        })
    }
}

/// The size of a directory with all below it, without the interleaved files and of the
/// interleaved files; or the first failure to list a part of it.
pub open spec fn tree_size(dir: DirEntry) -> Result<(int, int), Failure>
    decreases
            dir,
            match dir.dirs {
                Ok(dirs) => dirs@.len() + 1,
                Err(_) => 0,
            },
{
    match dir.files {
        Err(e) => Err(e@),
        Ok(files) => match dir.dirs {
            Err(e) => Err(e@),
            Ok(dirs) => match trees_size(dir, dirs@.len() as int) {
                Err(f) => Err(f),
                Ok((plain, interleaved)) => Ok(
                    (
                        plain + files_bytes(files@, false, files@.len() as int),
                        interleaved + files_bytes(files@, true, files@.len() as int),
                    ),
                ),
            },
        },
    }
}

/// The size of the first `n` directories of a directory.
pub open spec fn trees_size(dir: DirEntry, n: int) -> Result<(int, int), Failure>
    decreases dir, n,
    when dir.dirs is Ok && n <= dir.dirs->Ok_0@.len()
{
    if n <= 0 {
        Ok((0int, 0int))
    } else {
        match trees_size(dir, n - 1) {
            Err(f) => Err(f),
            Ok((plain, interleaved)) => match tree_size(dir.dirs->Ok_0@[n - 1]) {
                Err(f) => Err(f),
                Ok((p, i)) => Ok((plain + p, interleaved + i)),
            },
        }
    }
}

proof fn lemma_files_bytes_nonneg(files: Seq<FileEntry>, interleaved: bool, n: int)
    ensures
        files_bytes(files, interleaved, n) >= 0,
    decreases n,
{
    if n > 0 {
        lemma_files_bytes_nonneg(files, interleaved, n - 1);
    }
}

proof fn lemma_trees_fail_early(dir: DirEntry, k: int, n: int)
    requires
        dir.dirs is Ok,
        k <= n <= dir.dirs->Ok_0@.len(),
        trees_size(dir, k) is Err,
    ensures
        trees_size(dir, n) == trees_size(dir, k),
    decreases n - k,
{
    if k < n {
        lemma_trees_fail_early(dir, k, n - 1);
    }
}

/// The size of a directory with all below it: without the interleaved files, and of the
/// interleaved files.
#[verifier::loop_isolation(false)]
pub fn directory_size(dir: &DirEntry) -> (r: Result<(u64, u64), BdError>)
    ensures
        match tree_size(*dir) {
            Ok((plain, interleaved)) => {
                &&& plain >= 0
                &&& interleaved >= 0
                &&& r is Ok
                &&& r->Ok_0.0 == capped(plain)
                &&& r->Ok_0.1 == capped(interleaved)
            },
            Err(f) => r is Err && r->Err_0@ == f,
        },
    decreases dir,
{
    let files = match &dir.files {
        Ok(files) => files,
        Err(e) => {
            return Err(e.duplicate());
        },
    };
    let mut size: u64 = 0;
    let mut interleaved: u64 = 0;
    let mut i: usize = 0;
    while i < files.len()
        invariant
            i <= files@.len(),
            size == capped(files_bytes(files@, false, i as int)),
            interleaved == capped(files_bytes(files@, true, i as int)),
        decreases files@.len() - i,
    {
        proof {
            lemma_files_bytes_nonneg(files@, false, i as int);
            lemma_files_bytes_nonneg(files@, true, i as int);
        }
        if has_ending(files[i].name.as_str(), ".ssif") {
            interleaved = interleaved.saturating_add(files[i].length);
        } else {
            size = size.saturating_add(files[i].length);
        }
        i = i + 1;
    }
    proof {
        lemma_files_bytes_nonneg(files@, false, i as int);
        lemma_files_bytes_nonneg(files@, true, i as int);
    }
    let dirs = match &dir.dirs {
        Ok(dirs) => dirs,
        Err(e) => {
            return Err(e.duplicate());
        },
    };
    let ghost own = (
        files_bytes(files@, false, files@.len() as int),
        files_bytes(files@, true, files@.len() as int),
    );
    let mut k: usize = 0;
    while k < dirs.len()
        invariant
            k <= dirs@.len(),
            trees_size(*dir, k as int) is Ok,
            trees_size(*dir, k as int)->Ok_0.0 >= 0,
            trees_size(*dir, k as int)->Ok_0.1 >= 0,
            size == capped(trees_size(*dir, k as int)->Ok_0.0 + own.0),
            interleaved == capped(trees_size(*dir, k as int)->Ok_0.1 + own.1),
        decreases dirs@.len() - k,
    {
        proof {
            assert(dir.dirs->Ok_0@[k as int] == dirs@[k as int]);
            if tree_size(dirs@[k as int]) is Err {
                lemma_trees_fail_early(*dir, k + 1, dirs@.len() as int);
            }
        }
        let (p, s) = directory_size(&dirs[k])?;
        size = size.saturating_add(p);
        interleaved = interleaved.saturating_add(s);
        k = k + 1;
    }
    Ok((size, interleaved))
}

// ---- flags ----

/// Whether any of the files has the name.
pub open spec fn any_named(files: Seq<FileEntry>, name: Seq<char>) -> bool {
    exists|i: int| 0 <= i < files.len() && #[trigger] same_text(files[i].name@, name)
}

/// Whether any of the files has the name.
fn has_named(files: &Vec<FileEntry>, name: &str) -> (r: bool)
    ensures
        r == any_named(files@, name@),
{
    let mut i: usize = 0;
    while i < files.len()
        invariant
            i <= files@.len(),
            forall|k: int| 0 <= k < i ==> !#[trigger] same_text(files@[k].name@, name@),
        decreases files@.len() - i,
    {
        if eq_ignore_ascii_case(files[i].name.as_str(), name) {
            assert(same_text(files@[i as int].name@, name@));
            return true;
        }
        i = i + 1;
    }
    false
}

/// Whether a directory's name is that of a BD+ virtual machine.
pub open spec fn is_bd_plus_name(name: Seq<char>) -> bool {
    upper(name) == "BDSVM"@ || upper(name) == "SLYVM"@ || upper(name) == "ANYVM"@
}

/// Whether a directory has a BD+ virtual machine's among its own.
#[verifier::loop_isolation(false)]
pub fn has_bd_plus_dir(root: &DirEntry) -> (r: Result<bool, BdError>)
    ensures
        match root.dirs {
            Ok(dirs) => r is Ok && r->Ok_0 == exists|i: int|
                0 <= i < dirs@.len() && #[trigger] is_bd_plus_name(dirs@[i].name@),
            Err(e) => r is Err && r->Err_0@ == e@,
        },
{
    let dirs = match &root.dirs {
        Ok(dirs) => dirs,
        Err(e) => {
            return Err(e.duplicate());
        },
    };
    let mut i: usize = 0;
    while i < dirs.len()
        invariant
            i <= dirs@.len(),
            forall|k: int| 0 <= k < i ==> !#[trigger] is_bd_plus_name(dirs@[k].name@),
        decreases dirs@.len() - i,
    {
        let name = to_ascii_uppercase(dirs[i].name.as_str());
        let s = name.as_str();
        if crate::text::same(s, "BDSVM") || crate::text::same(s, "SLYVM") || crate::text::same(
            s,
            "ANYVM",
        ) {
            assert(is_bd_plus_name(dirs@[i as int].name@));
            return Ok(true);
        }
        i = i + 1;
    }
    Ok(false)
}

/// Whether a directory has any file.
pub fn has_any_file(dir: &DirEntry) -> (r: Result<bool, BdError>)
    ensures
        match dir.files {
            Ok(files) => r is Ok && r->Ok_0 == (files@.len() > 0),
            Err(e) => r is Err && r->Err_0@ == e@,
        },
{
    match &dir.files {
        Ok(files) => Ok(files.len() > 0),
        Err(e) => Err(e.duplicate()),
    }
}

/// Whether a directory has the D-BOX motion code's `FilmIndex.xml`.
pub fn has_film_index(root: &DirEntry) -> (r: Result<bool, BdError>)
    ensures
        match root.files {
            Ok(files) => r is Ok && r->Ok_0 == any_named(files@, "FilmIndex.xml"@),
            Err(e) => r is Err && r->Err_0@ == e@,
        },
{
    match &root.files {
        Ok(files) => Ok(has_named(files, "FilmIndex.xml")),
        Err(e) => Err(e.duplicate()),
    }
}

/// Whether a directory has a `*.mnv` file.
#[verifier::loop_isolation(false)]
pub fn has_mnv_file(dir: &DirEntry) -> (r: Result<bool, BdError>)
    ensures
        match dir.files {
            Ok(files) => r is Ok && r->Ok_0 == exists|i: int|
                0 <= i < files@.len() && #[trigger] ends_like(files@[i].name@, ".mnv"@),
            Err(e) => r is Err && r->Err_0@ == e@,
        },
{
    let files = match &dir.files {
        Ok(files) => files,
        Err(e) => {
            return Err(e.duplicate());
        },
    };
    let mut i: usize = 0;
    while i < files.len()
        invariant
            i <= files@.len(),
            forall|k: int| 0 <= k < i ==> !#[trigger] ends_like(files@[k].name@, ".mnv"@),
        decreases files@.len() - i,
    {
        if has_ending(files[i].name.as_str(), ".mnv") {
            assert(ends_like(files@[i as int].name@, ".mnv"@));
            return Ok(true);
        }
        i = i + 1;
    }
    Ok(false)
}

// ---- encryption ----

/// Whether a directory is `AACS` and holds the unit key file.
pub open spec fn is_key_dir(dir: DirEntry) -> bool {
    &&& same_text(dir.name@, "AACS"@)
    &&& dir.files is Ok
    &&& any_named(dir.files->Ok_0@, "Unit_Key_RO.inf"@)
}

/// Whether a disc has the unit key file. What cannot be listed does not have it.
pub open spec fn has_key_file(root: DirEntry) -> bool {
    root.dirs is Ok && exists|i: int|
        0 <= i < root.dirs->Ok_0@.len() && #[trigger] is_key_dir(root.dirs->Ok_0@[i])
}

/// Whether a disc has the unit key file.
#[verifier::loop_isolation(false)]
pub fn has_aacs_key_file(root: &DirEntry) -> (r: bool)
    ensures
        r == has_key_file(*root),
{
    let dirs = match &root.dirs {
        Ok(dirs) => dirs,
        Err(_) => {
            return false;
        },
    };
    let mut i: usize = 0;
    while i < dirs.len()
        invariant
            i <= dirs@.len(),
            forall|k: int| 0 <= k < i ==> !#[trigger] is_key_dir(dirs@[k]),
        decreases dirs@.len() - i,
    {
        let found = eq_ignore_ascii_case(dirs[i].name.as_str(), "AACS") && match &dirs[i].files {
            Ok(files) => has_named(files, "Unit_Key_RO.inf"),
            Err(_) => false,
        };
        if found {
            assert(is_key_dir(dirs@[i as int]));
            return true;
        }
        i = i + 1;
    }
    false
}

/// How many of the source packets from the `k`th up to the `n`th, of the aligned unit at
/// `at`, have their sync byte.
pub open spec fn syncs(bytes: Seq<u8>, at: int, k: int, n: int) -> int
    decreases n - k,
{
    if k >= n {
        0
    } else {
        (if bytes[at + k * 192 + 4] == 0x47 {
            1int
        } else {
            0int
        }) + syncs(bytes, at, k + 1, n)
    }
}

/// Whether an aligned unit at `at` looks encrypted: the first sync byte, which stays clear,
/// is there, and no more of the 31 others than chance allows.
pub open spec fn looks_encrypted(bytes: Seq<u8>, at: int) -> bool {
    bytes[at + 4] == 0x47 && syncs(bytes, at, 1, 32) <= MAX_STRAY_SYNCS
}

/// Whether the aligned unit at `at` looks encrypted.
pub fn unit_shows_encryption(bytes: &Vec<u8>, at: usize) -> (r: bool)
    requires
        at + ALIGNED_UNIT_BYTES <= bytes@.len(),
    ensures
        r == looks_encrypted(bytes@, at as int),
{
    assert(bytes.len() <= usize::MAX);
    let first = bytes[at + 4] == 0x47;
    let mut strays: usize = 0;
    let mut k: usize = 1;
    while k < 32
        invariant
            1 <= k <= 32,
            strays < k,
            at + ALIGNED_UNIT_BYTES <= bytes@.len(),
            bytes.len() <= usize::MAX,
            strays + syncs(bytes@, at as int, k as int, 32) == syncs(bytes@, at as int, 1, 32),
        decreases 32 - k,
    {
        if bytes[at + k * SOURCE_PACKET_BYTES + 4] == 0x47 {
            strays = strays + 1;
        }
        k = k + 1;
    }
    first && strays <= MAX_STRAY_SYNCS
}

/// Whether a file's first two aligned units look encrypted. A file that cannot be read so
/// far does not.
pub open spec fn head_encrypted(file: FileEntry) -> bool {
    &&& file.content is Ok
    &&& file.content->Ok_0@.len() >= 2 * ALIGNED_UNIT_BYTES
    &&& looks_encrypted(file.content->Ok_0@, 0)
    &&& looks_encrypted(file.content->Ok_0@, ALIGNED_UNIT_BYTES as int)
}

/// Whether a file's first two aligned units look encrypted.
pub fn file_head_encrypted(file: &FileEntry) -> (r: bool)
    ensures
        r == head_encrypted(*file),
{
    match &file.content {
        Ok(bytes) => bytes.len() >= 2 * ALIGNED_UNIT_BYTES && unit_shows_encryption(bytes, 0)
            && unit_shows_encryption(bytes, ALIGNED_UNIT_BYTES),
        Err(_) => false,
    }
}

/// Whether a file is sampled before another: the larger one is, and of two of a size the
/// one whose name comes first.
pub open spec fn sampled_before(a: FileEntry, b: FileEntry) -> bool {
    a.length > b.length || (a.length == b.length && before(a.name@, b.name@))
}

/// Of the first `n` files, the stream file that is sampled first, the one at `skip` left
/// out.
pub open spec fn sample(files: Seq<FileEntry>, skip: Option<int>, n: int) -> Option<int>
    decreases n,
{
    if n <= 0 {
        None
    } else {
        let so_far = sample(files, skip, n - 1);
        if skip == Some(n - 1) || !is_kind(files[n - 1].name@, BdFileKind::Stream) {
            so_far
        } else {
            match so_far {
                Some(k) => if sampled_before(files[n - 1], files[k]) {
                    Some(n - 1)
                } else {
                    so_far
                },
                None => Some(n - 1),
            }
        }
    }
}

/// Whether the stream files look encrypted: there are some, and the first two samples do.
/// What cannot be listed does not.
pub open spec fn content_encrypted(stream: DirEntry) -> bool {
    match stream.files {
        Ok(files) => {
            let n = files@.len() as int;
            match sample(files@, None, n) {
                Some(a) => head_encrypted(files@[a]) && match sample(files@, Some(a), n) {
                    Some(b) => head_encrypted(files@[b]),
                    None => true,
                },
                None => false,
            }
        },
        Err(_) => false,
    }
}

/// The stream file that is sampled first, the one at `skip` left out.
fn pick_sample(files: &Vec<FileEntry>, skip: Option<usize>) -> (r: Option<usize>)
    ensures
        match sample(
            files@,
            match skip {
                Some(k) => Some(k as int),
                None => None,
            },
            files@.len() as int,
        ) {
            Some(k) => r is Some && r->Some_0 as int == k && k < files@.len(),
            None => r is None,
        },
{
    let ghost left_out = match skip {
        Some(k) => Some(k as int),
        None => None,
    };
    let mut best: Option<usize> = None;
    let mut i: usize = 0;
    while i < files.len()
        invariant
            i <= files@.len(),
            left_out == (match skip {
                Some(k) => Some(k as int),
                None => None,
            }),
            match sample(files@, left_out, i as int) {
                Some(k) => best is Some && best->Some_0 as int == k && k < i,
                None => best is None,
            },
        decreases files@.len() - i,
    {
        let skipped = match skip {
            Some(k) => k == i,
            None => false,
        };
        if !skipped && has_kind(files[i].name.as_str(), BdFileKind::Stream) {
            match best {
                Some(k) => {
                    let larger = files[i].length > files[k].length || (files[i].length
                        == files[k].length && comes_before(
                        files[i].name.as_str(),
                        files[k].name.as_str(),
                    ));
                    if larger {
                        best = Some(i);
                    }
                },
                None => {
                    best = Some(i);
                },
            }
        }
        i = i + 1;
    }
    best
}

/// Whether the stream files look encrypted.
pub fn stream_content_encrypted(stream: &DirEntry) -> (r: bool)
    ensures
        r == content_encrypted(*stream),
{
    let files = match &stream.files {
        Ok(files) => files,
        Err(_) => {
            return false;
        },
    };
    let first: usize = match pick_sample(files, None) {
        Some(k) => k,
        None => {
            return false;
        },
    };
    if !file_head_encrypted(&files[first]) {
        return false;
    }
    match pick_sample(files, Some(first)) {
        Some(k) => file_head_encrypted(&files[k]),
        None => true,
    }
}

/// Whether a disc's stream files are encrypted: it has the unit key file, and the samples
/// look encrypted. Every doubt is a no.
pub fn detect_aacs_encryption(root: &DirEntry, stream: Option<&DirEntry>) -> (r: bool)
    ensures
        r == (has_key_file(*root) && match stream {
            Some(dir) => content_encrypted(*dir),
            None => false,
        }),
{
    has_aacs_key_file(root) && match stream {
        Some(dir) => stream_content_encrypted(dir),
        None => false,
    }
}

/// A unit with all its sync bytes, as every clear one has them, never looks encrypted.
pub proof fn lemma_clear_unit_does_not_look_encrypted(bytes: Seq<u8>, at: int)
    requires
        0 <= at,
        at + ALIGNED_UNIT_BYTES <= bytes.len(),
        forall|k: int| 0 <= k < 32 ==> #[trigger] bytes[at + k * 192 + 4] == 0x47,
    ensures
        !looks_encrypted(bytes, at),
{
    lemma_all_syncs(bytes, at, 1);
}

proof fn lemma_all_syncs(bytes: Seq<u8>, at: int, k: int)
    requires
        0 <= k <= 32,
        forall|j: int| 0 <= j < 32 ==> #[trigger] bytes[at + j * 192 + 4] == 0x47,
    ensures
        syncs(bytes, at, k, 32) == 32 - k,
    decreases 32 - k,
{
    if k < 32 {
        lemma_all_syncs(bytes, at, k + 1);
        assert(bytes[at + k * 192 + 4] == 0x47);
    }
}

// ---- metadata files ----

/// What reading a metadata file gives: its bytes, unless there are more than `cap`.
pub open spec fn capped_content(file: FileEntry, cap: u64) -> Result<Seq<u8>, Failure> {
    match file.content {
        Ok(bytes) => if bytes@.len() <= cap {
            Ok(bytes@)
        } else {
            Err(Failure::MetadataTooLarge { file: file.name@, limit: cap })
        },
        Err(e) => Err(e@),
    }
}

/// Reads a metadata file of no more than `cap` bytes.
pub fn read_file_capped<'a>(file: &'a FileEntry, cap: u64) -> (r: Result<&'a Vec<u8>, BdError>)
    ensures
        match capped_content(*file, cap) {
            Ok(bytes) => r is Ok && r->Ok_0@ == bytes,
            Err(f) => r is Err && r->Err_0@ == f,
        },
{
    match &file.content {
        Ok(bytes) => if bytes.len() as u64 <= cap {
            Ok(bytes)
        } else {
            Err(BdError::MetadataTooLarge { file: file.name.clone(), limit: cap })
        },
        Err(e) => Err(e.duplicate()),
    }
}

/// Reads a metadata file.
pub fn read_file<'a>(file: &'a FileEntry) -> (r: Result<&'a Vec<u8>, BdError>)
    ensures
        match capped_content(*file, MAX_METADATA_BYTES) {
            Ok(bytes) => r is Ok && r->Ok_0@ == bytes,
            Err(f) => r is Err && r->Err_0@ == f,
        },
{
    read_file_capped(file, MAX_METADATA_BYTES)
}

/// The sizes of the first `n` files, those of a kind, under their upper-cased names.
pub open spec fn sizes_of(files: Seq<FileEntry>, kind: BdFileKind, n: int) -> Seq<(Seq<char>, u64)>
    decreases n,
{
    if n <= 0 {
        Seq::empty()
    } else if is_kind(files[n - 1].name@, kind) {
        put(sizes_of(files, kind, n - 1), upper(files[n - 1].name@), files[n - 1].length)
    } else {
        sizes_of(files, kind, n - 1)
    }
}

/// The sizes of a directory's files of a kind; without a directory there are none.
pub open spec fn dir_sizes(dir: Option<DirEntry>, kind: BdFileKind) -> Result<
    Seq<(Seq<char>, u64)>,
    Failure,
> {
    match dir {
        Some(d) => match d.files {
            Ok(files) => Ok(sizes_of(files@, kind, files@.len() as int)),
            Err(e) => Err(e@),
        },
        None => Ok(Seq::empty()),
    }
}

/// An optional directory as a value.
pub open spec fn dir_value(dir: Option<&DirEntry>) -> Option<DirEntry> {
    match dir {
        Some(d) => Some(*d),
        None => None,
    }
}

/// The sizes of a directory's files of a kind, under their upper-cased names.
#[verifier::loop_isolation(false)]
pub fn file_sizes(dir: Option<&DirEntry>, kind: BdFileKind) -> (r: Result<NameTable<u64>, BdError>)
    ensures
        match dir_sizes(dir_value(dir), kind) {
            Ok(sizes) => r is Ok && r->Ok_0@ == sizes,
            Err(f) => r is Err && r->Err_0@ == f,
        },
{
    let mut table: NameTable<u64> = NameTable::new();
    if let Some(d) = dir {
        let files = match &d.files {
            Ok(files) => files,
            Err(e) => {
                return Err(e.duplicate());
            },
        };
        let mut i: usize = 0;
        while i < files.len()
            invariant
                i <= files@.len(),
                table@ == sizes_of(files@, kind, i as int),
            decreases files@.len() - i,
        {
            if has_kind(files[i].name.as_str(), kind) {
                table.insert(to_ascii_uppercase(files[i].name.as_str()), files[i].length);
            }
            i = i + 1;
        }
    }
    Ok(table)
}

} // verus!
