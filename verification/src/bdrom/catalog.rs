//! The file tables of a disc, its parsed playlists, and the report built from both.

use vstd::prelude::*;
use vstd::string::*;

use super::clpi::{clip_streams, ClipFileView, TsStreamClipFile};
use super::disc::{BdRom, PlaylistSummary, PlaylistSummaryView};
use super::discovery::{
    capped_content, dir_sizes, dir_value, file_sizes, has_kind, is_kind, read_file, BdFileKind,
    DirEntry, FileEntry, MAX_METADATA_BYTES,
};
use super::m2ts::{FileView, TsStreamFile};
use super::mpls::{playlist, playlist_views, PlaylistView, TsPlaylistFile};
use super::open::{
    backup_of, discover_backups, level_of, listed, read_disc_level, usable_backups, DiscLevel,
    Layout, LayoutView, LevelView, Listing,
};
use super::present::StreamText;
use super::rd_text;
use super::resolve::metas_of;
use super::sink::{noted, Sink};
use super::summarise::{build_summary, summary_by};
use crate::error::{BdError, Failure, Note, ScanStage};
use crate::names::{lemma_put_views, put, table_views, NameTable};
use crate::text::{before, comes_before, text_view, to_ascii_uppercase, upper};

verus! {

// ---- the clip information ----

/// What a file called `name` says as clip information.
pub open spec fn clip_file_in(file: FileEntry) -> Result<ClipFileView, Failure> {
    match capped_content(file, MAX_METADATA_BYTES) {
        Err(f) => Err(f),
        Ok(bytes) => match clip_streams(bytes) {
            Err(f) => Err(f),
            Ok(streams) => Ok(
                ClipFileView {
                    file_type: rd_text(bytes, 0, 8)->Some_0,
                    is_valid: true,
                    name: upper(file.name@),
                    streams,
                },
            ),
        },
    }
}

/// Reads a file as clip information.
fn read_clip_file(file: &FileEntry) -> (r: Result<TsStreamClipFile, BdError>)
    ensures
        match clip_file_in(*file) {
            Ok(v) => r is Ok && r->Ok_0@ == v,
            Err(f) => r is Err && r->Err_0@ == f,
        },
{
    let bytes = read_file(file)?;
    TsStreamClipFile::scan(file.name.as_str(), bytes.as_slice())
}

/// What stands for a file: what it says, or, in a resilient scan, what its backup says.
pub open spec fn recovered<V>(
    primary: Result<V, Failure>,
    backup: Option<Result<V, Failure>>,
    notes: Option<Seq<Note>>,
) -> Result<Option<V>, Failure> {
    match primary {
        Ok(v) => Ok(Some(v)),
        Err(f) => if notes is None {
            Err(f)
        } else {
            match backup {
                Some(Ok(v)) => Ok(Some(v)),
                _ => Ok(None),
            }
        },
    }
}

/// The notes after a file has been read.
pub open spec fn after_reading<V>(
    primary: Result<V, Failure>,
    notes: Option<Seq<Note>>,
    stage: ScanStage,
    name: Seq<char>,
) -> Option<Seq<Note>> {
    match primary {
        Ok(_) => notes,
        Err(f) => noted(notes, stage, name, f),
    }
}

/// What the backup of a clip-information file says, where there is one.
pub open spec fn clip_backup(pool: Seq<FileEntry>, name: Seq<char>) -> Option<
    Result<ClipFileView, Failure>,
> {
    match backup_of(pool, name) {
        Some(f) => Some(clip_file_in(f)),
        None => None,
    }
}

/// The table of the clip-information files from the `i`th file on, and the notes after
/// they were read.
pub open spec fn clips_from(
    files: Seq<FileEntry>,
    i: int,
    pool: Seq<FileEntry>,
    table: Seq<(Seq<char>, ClipFileView)>,
    notes: Option<Seq<Note>>,
) -> (Result<Seq<(Seq<char>, ClipFileView)>, Failure>, Option<Seq<Note>>)
    decreases files.len() - i,
{
    if i < 0 || i >= files.len() {
        (Ok(table), notes)
    } else if !is_kind(files[i].name@, BdFileKind::ClipInfo) {
        clips_from(files, i + 1, pool, table, notes)
    } else {
        let name = files[i].name@;
        let primary = clip_file_in(files[i]);
        let after = after_reading(primary, notes, ScanStage::ClipInfo, name);
        match recovered(primary, clip_backup(pool, name), notes) {
            Err(f) => (Err(f), after),
            Ok(Some(v)) => clips_from(files, i + 1, pool, put(table, upper(name), v), after),
            Ok(None) => clips_from(files, i + 1, pool, table, after),
        }
    }
}

/// The files of a directory, and the notes after they were listed.
pub open spec fn listing_step(dir: DirEntry, notes: Option<Seq<Note>>) -> (
    Result<Seq<FileEntry>, Failure>,
    Option<Seq<Note>>,
) {
    match listed(dir) {
        Ok(files) => (Ok(files), notes),
        Err(f) => if notes is None {
            (Err(f), notes)
        } else {
            (Ok(Seq::empty()), noted(notes, ScanStage::Discovery, dir.name@, f))
        },
    }
}

/// The table of a directory's clip-information files, and the notes after it was read.
pub open spec fn clips_of(dir: DirEntry, pool: Seq<FileEntry>, notes: Option<Seq<Note>>) -> (
    Result<Seq<(Seq<char>, ClipFileView)>, Failure>,
    Option<Seq<Note>>,
) {
    match listing_step(dir, notes) {
        (Err(f), after) => (Err(f), after),
        (Ok(files), after) => clips_from(files, 0, pool, Seq::empty(), after),
    }
}

/// Lists a directory's files; in a resilient scan a failure is noted and gives none.
pub fn list_files<'a>(dir: &'a DirEntry, sink: &mut Sink) -> (r: Result<Listing<'a>, BdError>)
    ensures
        match listing_step(*dir, old(sink)@).0 {
            Ok(files) => r is Ok && r->Ok_0@ == files,
            Err(f) => r is Err && r->Err_0@ == f,
        },
        final(sink)@ == listing_step(*dir, old(sink)@).1,
{
    let files = super::open::list_backup_files(dir);
    sink.absorb(ScanStage::Discovery, dir.name.as_str(), Listing::none(), files)
}

/// Reads one clip-information file, or its backup.
fn recover_clip_file<'a>(file: &FileEntry, pool: &Listing<'a>, sink: &mut Sink) -> (r: Result<
    Option<TsStreamClipFile>,
    BdError,
>)
    ensures
        ({
            let primary = clip_file_in(*file);
            &&& final(sink)@ == after_reading(
                primary,
                old(sink)@,
                ScanStage::ClipInfo,
                file.name@,
            )
            &&& match recovered(primary, clip_backup(pool@, file.name@), old(sink)@) {
                Ok(Some(v)) => r is Ok && r->Ok_0 is Some && r->Ok_0->Some_0@ == v,
                Ok(None) => r is Ok && r->Ok_0 is None,
                Err(f) => r is Err && r->Err_0@ == f,
            }
        }),
{
    let name = file.name.as_str();
    let primary = match read_clip_file(file) {
        Ok(parsed) => Ok(Some(parsed)),
        Err(e) => Err(e),
    };
    let backup = match pool.get(name) {
        Some(copy) => match read_clip_file(copy) {
            Ok(parsed) => Some(Ok(Some(parsed))),
            Err(e) => Some(Err(e)),
        },
        None => None,
    };
    sink.absorb_with_backup(ScanStage::ClipInfo, name, None, primary, backup)
}

/// Reads every clip-information file of a directory, keyed by upper-cased name. A file that
/// cannot be read or parsed ends a strict scan; a resilient one notes it and takes its
/// backup, or leaves it out.
#[verifier::loop_isolation(false)]
pub fn scan_clip_files<'a>(clipinf: &'a DirEntry, pool: &Listing<'a>, sink: &mut Sink) -> (r:
    Result<NameTable<TsStreamClipFile>, BdError>)
    ensures
        match clips_of(*clipinf, pool@, old(sink)@).0 {
            Ok(table) => r is Ok && table_views(r->Ok_0@) == table,
            Err(f) => r is Err && r->Err_0@ == f,
        },
        final(sink)@ == clips_of(*clipinf, pool@, old(sink)@).1,
{
    let ghost whole = clips_of(*clipinf, pool@, sink@);
    let files = list_files(clipinf, sink)?;
    let mut table: NameTable<TsStreamClipFile> = NameTable::new();
    proof {
        assert(table_views(table@) =~= Seq::empty());
    }
    if let Some(list) = files.files {
        let mut i: usize = 0;
        while i < list.len()
            invariant
                i <= list@.len(),
                clips_from(list@, i as int, pool@, table_views(table@), sink@) == whole,
            decreases list@.len() - i,
        {
            if has_kind(list[i].name.as_str(), BdFileKind::ClipInfo) {
                if let Some(parsed) = recover_clip_file(&list[i], pool, sink)? {
                    proof {
                        lemma_put_views(table@, upper(list@[i as int].name@), parsed);
                    }
                    table.insert(to_ascii_uppercase(list[i].name.as_str()), parsed);
                }
            }
            i = i + 1;
        }
    }
    Ok(table)
}

// ---- the playlists ----

/// What a file says as a playlist.
pub open spec fn playlist_in(file: FileEntry) -> Result<PlaylistView, Failure> {
    match capped_content(file, MAX_METADATA_BYTES) {
        Err(f) => Err(f),
        Ok(bytes) => match playlist(bytes) {
            Err(f) => Err(f),
            Ok(p) => Ok(
                PlaylistView {
                    file_type: rd_text(bytes, 0, 8)->Some_0,
                    name: upper(file.name@),
                    mvc_base_view_r: p.mvc_base_view_r,
                    chapters: p.chapters,
                    playlist_streams: p.playlist_streams,
                    streams: Map::empty(),
                    angle_streams: Seq::empty(),
                    clips: p.clips,
                    angle_count: p.angle_count as i32,
                },
            ),
        },
    }
}

/// Reads a file as a playlist.
fn read_playlist(file: &FileEntry) -> (r: Result<TsPlaylistFile, BdError>)
    ensures
        match playlist_in(*file) {
            Ok(v) => r is Ok && r->Ok_0@ == v,
            Err(f) => r is Err && r->Err_0@ == f,
        },
{
    let bytes = read_file(file)?;
    let parsed = TsPlaylistFile::scan(file.name.as_str(), bytes.as_slice())?;
    proof {
        assert(parsed@.angle_streams =~= Seq::empty());
    }
    Ok(parsed)
}

/// What the backup of a playlist says, where there is one.
pub open spec fn playlist_backup(pool: Seq<FileEntry>, name: Seq<char>) -> Option<
    Result<PlaylistView, Failure>,
> {
    match backup_of(pool, name) {
        Some(f) => Some(playlist_in(f)),
        None => None,
    }
}

/// Where in an order of files, from the `k`th place on, a file of the upper-cased name
/// `key` goes: behind all that do not come after it.
pub open spec fn slot_for(files: Seq<FileEntry>, order: Seq<int>, key: Seq<char>, k: int) -> int
    decreases order.len() - k,
{
    if k < 0 || k >= order.len() || before(key, upper(files[order[k]].name@)) {
        k
    } else {
        slot_for(files, order, key, k + 1)
    }
}

/// The playlists among the first `n` files, by upper-cased name; of two of a name the one
/// that is listed first comes first.
pub open spec fn name_order(files: Seq<FileEntry>, n: int) -> Seq<int>
    decreases n,
{
    if n <= 0 {
        Seq::empty()
    } else {
        let order = name_order(files, n - 1);
        if is_kind(files[n - 1].name@, BdFileKind::Playlist) {
            order.insert(slot_for(files, order, upper(files[n - 1].name@), 0), n - 1)
        } else {
            order
        }
    }
}

/// The playlists from the `k`th place of the order on, and the notes after they were read.
pub open spec fn playlists_from(
    files: Seq<FileEntry>,
    order: Seq<int>,
    k: int,
    pool: Seq<FileEntry>,
    parsed: Seq<PlaylistView>,
    notes: Option<Seq<Note>>,
) -> (Result<Seq<PlaylistView>, Failure>, Option<Seq<Note>>)
    decreases order.len() - k,
{
    if k < 0 || k >= order.len() {
        (Ok(parsed), notes)
    } else {
        let file = files[order[k]];
        let primary = playlist_in(file);
        let after = after_reading(primary, notes, ScanStage::Playlist, file.name@);
        match recovered(primary, playlist_backup(pool, file.name@), notes) {
            Err(f) => (Err(f), after),
            Ok(Some(p)) => playlists_from(files, order, k + 1, pool, parsed.push(p), after),
            Ok(None) => playlists_from(files, order, k + 1, pool, parsed, after),
        }
    }
}

/// A directory's playlists by name, and the notes after they were read.
pub open spec fn playlists_of(dir: DirEntry, pool: Seq<FileEntry>, notes: Option<Seq<Note>>) -> (
    Result<Seq<PlaylistView>, Failure>,
    Option<Seq<Note>>,
) {
    match listing_step(dir, notes) {
        (Err(f), after) => (Err(f), after),
        (Ok(files), after) => playlists_from(
            files,
            name_order(files, files.len() as int),
            0,
            pool,
            Seq::empty(),
            after,
        ),
    }
}

/// The playlists among files, by upper-cased name.
fn order_by_name(files: &Vec<FileEntry>) -> (r: Vec<usize>)
    ensures
        r@.map_values(|i: usize| i as int) == name_order(files@, files@.len() as int),
        forall|k: int| 0 <= k < r@.len() ==> #[trigger] r@[k] < files@.len(),
{
    let mut order: Vec<usize> = Vec::new();
    let mut i: usize = 0;
    proof {
        assert(order@.map_values(|i: usize| i as int) =~= Seq::<int>::empty());
    }
    while i < files.len()
        invariant
            i <= files@.len(),
            order@.map_values(|i: usize| i as int) == name_order(files@, i as int),
            forall|k: int| 0 <= k < order@.len() ==> #[trigger] order@[k] < i,
        decreases files@.len() - i,
    {
        if has_kind(files[i].name.as_str(), BdFileKind::Playlist) {
            let key = to_ascii_uppercase(files[i].name.as_str());
            let ghost ints = order@.map_values(|i: usize| i as int);
            let mut k: usize = 0;
            let mut searching = true;
            while searching && k < order.len()
                invariant
                    k <= order@.len(),
                    i < files@.len(),
                    key@ == upper(files@[i as int].name@),
                    ints == order@.map_values(|i: usize| i as int),
                    forall|k: int| 0 <= k < order@.len() ==> #[trigger] order@[k] < i,
                    searching ==> slot_for(files@, ints, key@, k as int) == slot_for(
                        files@,
                        ints,
                        key@,
                        0,
                    ),
                    !searching ==> slot_for(files@, ints, key@, 0) == k,
                decreases
                        order@.len() - k,
                        if searching {
                            1int
                        } else {
                            0int
                        },
            {
                let other = to_ascii_uppercase(files[order[k]].name.as_str());
                assert(ints[k as int] == order@[k as int] as int);
                if comes_before(key.as_str(), other.as_str()) {
                    searching = false;
                } else {
                    k = k + 1;
                }
            }
            order.insert(k, i);
            proof {
                assert(order@.map_values(|i: usize| i as int) =~= ints.insert(k as int, i as int));
            }
        }
        i = i + 1;
    }
    order
}

/// Reads one playlist, or its backup.
fn recover_playlist<'a>(file: &FileEntry, pool: &Listing<'a>, sink: &mut Sink) -> (r: Result<
    Option<TsPlaylistFile>,
    BdError,
>)
    ensures
        ({
            let primary = playlist_in(*file);
            &&& final(sink)@ == after_reading(
                primary,
                old(sink)@,
                ScanStage::Playlist,
                file.name@,
            )
            &&& match recovered(primary, playlist_backup(pool@, file.name@), old(sink)@) {
                Ok(Some(v)) => r is Ok && r->Ok_0 is Some && r->Ok_0->Some_0@ == v,
                Ok(None) => r is Ok && r->Ok_0 is None,
                Err(f) => r is Err && r->Err_0@ == f,
            }
        }),
{
    let name = file.name.as_str();
    let primary = match read_playlist(file) {
        Ok(parsed) => Ok(Some(parsed)),
        Err(e) => Err(e),
    };
    let backup = match pool.get(name) {
        Some(copy) => match read_playlist(copy) {
            Ok(parsed) => Some(Ok(Some(parsed))),
            Err(e) => Some(Err(e)),
        },
        None => None,
    };
    sink.absorb_with_backup(ScanStage::Playlist, name, None, primary, backup)
}

/// Reads every playlist of a directory, by upper-cased name. A file that cannot be read or
/// parsed ends a strict scan; a resilient one notes it and takes its backup, or leaves it
/// out.
#[verifier::loop_isolation(false)]
pub fn parse_playlists<'a>(playlist_dir: &'a DirEntry, pool: &Listing<'a>, sink: &mut Sink) -> (r:
    Result<Vec<TsPlaylistFile>, BdError>)
    ensures
        match playlists_of(*playlist_dir, pool@, old(sink)@).0 {
            Ok(parsed) => r is Ok && playlist_views(r->Ok_0@) == parsed,
            Err(f) => r is Err && r->Err_0@ == f,
        },
        final(sink)@ == playlists_of(*playlist_dir, pool@, old(sink)@).1,
{
    let ghost whole = playlists_of(*playlist_dir, pool@, sink@);
    let files = list_files(playlist_dir, sink)?;
    let mut parsed: Vec<TsPlaylistFile> = Vec::new();
    proof {
        assert(playlist_views(parsed@) =~= Seq::empty());
    }
    if let Some(list) = files.files {
        let order = order_by_name(list);
        let ghost ints = order@.map_values(|i: usize| i as int);
        let mut k: usize = 0;
        while k < order.len()
            invariant
                k <= order@.len(),
                ints == order@.map_values(|i: usize| i as int),
                playlists_from(list@, ints, k as int, pool@, playlist_views(parsed@), sink@)
                    == whole,
            decreases order@.len() - k,
        {
            assert(ints[k as int] == order@[k as int] as int);
            if let Some(one) = recover_playlist(&list[order[k]], pool, sink)? {
                let ghost was = playlist_views(parsed@);
                let ghost added = one@;
                parsed.push(one);
                proof {
                    assert(playlist_views(parsed@) =~= was.push(added));
                }
            }
            k = k + 1;
        }
    } else {
        proof {
            assert(name_order(Seq::<FileEntry>::empty(), 0) =~= Seq::empty());
        }
    }
    Ok(parsed)
}

// ---- the tables ----

/// The tables of a disc's files.
#[derive(Debug)]
pub struct FileMaps {
    /// The sizes of the stream files.
    pub stream_files: NameTable<u64>,
    /// The sizes of the interleaved files.
    pub interleaved_files: NameTable<u64>,
    /// The clip-information files.
    pub clip_files: NameTable<TsStreamClipFile>,
}

/// What [`FileMaps`] hold.
pub struct MapsView {
    pub stream_files: Seq<(Seq<char>, u64)>,
    pub interleaved_files: Seq<(Seq<char>, u64)>,
    pub clip_files: Seq<(Seq<char>, ClipFileView)>,
}

impl View for FileMaps {
    type V = MapsView;

    open spec fn view(&self) -> MapsView {
        MapsView {
            stream_files: self.stream_files@,
            interleaved_files: self.interleaved_files@,
            clip_files: table_views(self.clip_files@),
        }
    }
}

/// The sizes of a directory's files of a kind, and the notes after they were listed; the
/// directory goes by `otherwise` where it is not there.
pub open spec fn sizes_step(
    dir: Option<DirEntry>,
    otherwise: Seq<char>,
    kind: BdFileKind,
    notes: Option<Seq<Note>>,
) -> (Result<Seq<(Seq<char>, u64)>, Failure>, Option<Seq<Note>>) {
    match dir_sizes(dir, kind) {
        Ok(sizes) => (Ok(sizes), notes),
        Err(f) => if notes is None {
            (Err(f), notes)
        } else {
            (
                Ok(Seq::empty()),
                noted(
                    notes,
                    ScanStage::Discovery,
                    match dir {
                        Some(d) => d.name@,
                        None => otherwise,
                    },
                    f,
                ),
            )
        },
    }
}

/// The tables of a disc's files, and the notes after they were built.
pub open spec fn maps_of(l: LayoutView, pool: Seq<FileEntry>, notes: Option<Seq<Note>>) -> (
    Result<MapsView, Failure>,
    Option<Seq<Note>>,
) {
    let (streams, n1) = sizes_step(l.stream, "STREAM"@, BdFileKind::Stream, notes);
    match streams {
        Err(f) => (Err(f), n1),
        Ok(stream_files) => {
            let (ssif, n2) = sizes_step(l.ssif, "SSIF"@, BdFileKind::Interleaved, n1);
            match ssif {
                Err(f) => (Err(f), n2),
                Ok(interleaved_files) => {
                    let (clips, n3) = clips_of(l.clipinf, pool, n2);
                    match clips {
                        Err(f) => (Err(f), n3),
                        Ok(clip_files) => (
                            Ok(MapsView { stream_files, interleaved_files, clip_files }),
                            n3,
                        ),
                    }
                },
            }
        },
    }
}

/// The sizes of a directory's files of a kind.
fn read_sizes(dir: Option<&DirEntry>, otherwise: &str, kind: BdFileKind, sink: &mut Sink) -> (r:
    Result<NameTable<u64>, BdError>)
    ensures
        match sizes_step(dir_value(dir), otherwise@, kind, old(sink)@).0 {
            Ok(sizes) => r is Ok && r->Ok_0@ == sizes,
            Err(f) => r is Err && r->Err_0@ == f,
        },
        final(sink)@ == sizes_step(dir_value(dir), otherwise@, kind, old(sink)@).1,
{
    let name = match dir {
        Some(d) => d.name.as_str(),
        None => otherwise,
    };
    let sizes = file_sizes(dir, kind);
    sink.absorb(ScanStage::Discovery, name, NameTable::new(), sizes)
}

/// Builds the tables of a disc's files.
pub fn build_file_maps<'a>(
    layout: &Layout<'a>,
    backup_clipinf: &Listing<'a>,
    sink: &mut Sink,
) -> (r: Result<FileMaps, BdError>)
    ensures
        match maps_of(layout@, backup_clipinf@, old(sink)@).0 {
            Ok(maps) => r is Ok && r->Ok_0@ == maps,
            Err(f) => r is Err && r->Err_0@ == f,
        },
        final(sink)@ == maps_of(layout@, backup_clipinf@, old(sink)@).1,
{
    let stream_files = read_sizes(layout.stream, "STREAM", BdFileKind::Stream, sink)?;
    let interleaved_files = read_sizes(layout.ssif, "SSIF", BdFileKind::Interleaved, sink)?;
    let clip_files = scan_clip_files(layout.clipinf, backup_clipinf, sink)?;
    Ok(FileMaps { stream_files, interleaved_files, clip_files })
}

// ---- opening ----

/// A disc whose metadata has been read.
#[derive(Debug)]
pub struct Opened {
    /// The disc-level facts.
    pub level: DiscLevel,
    /// The file tables.
    pub maps: FileMaps,
    /// The playlists, by name.
    pub playlists: Vec<TsPlaylistFile>,
}

/// What an [`Opened`] holds.
pub struct OpenedView {
    pub level: LevelView,
    pub maps: MapsView,
    pub playlists: Seq<PlaylistView>,
}

impl View for Opened {
    type V = OpenedView;

    open spec fn view(&self) -> OpenedView {
        OpenedView {
            level: self.level@,
            maps: self.maps@,
            playlists: playlist_views(self.playlists@),
        }
    }
}

/// The metadata of a disc whose directories are known, and the notes after it was read: the
/// backups, the disc-level facts, the file tables and the playlists.
pub open spec fn opened_at(root: DirEntry, l: LayoutView, notes: Option<Seq<Note>>) -> (
    Result<OpenedView, Failure>,
    Option<Seq<Note>>,
) {
    let (backups, n1) = usable_backups(l.bdmv, notes);
    let (level, n2) = level_of(root, l, backups.index, n1);
    match level {
        Err(f) => (Err(f), n2),
        Ok(level) => {
            let (maps, n3) = maps_of(l, backups.clipinf, n2);
            match maps {
                Err(f) => (Err(f), n3),
                Ok(maps) => {
                    let (playlists, n4) = playlists_of(l.playlist, backups.playlist, n3);
                    match playlists {
                        Err(f) => (Err(f), n4),
                        Ok(playlists) => (Ok(OpenedView { level, maps, playlists }), n4),
                    }
                },
            }
        },
    }
}

/// Reads the metadata of a disc whose directories are known. A failure ends a strict scan; a
/// resilient one notes it and goes on.
pub fn open_located<'a>(root: &DirEntry, layout: &Layout<'a>, sink: &mut Sink) -> (r: Result<
    Opened,
    BdError,
>)
    ensures
        match opened_at(*root, layout@, old(sink)@).0 {
            Ok(view) => r is Ok && r->Ok_0@ == view,
            Err(f) => r is Err && r->Err_0@ == f,
        },
        final(sink)@ == opened_at(*root, layout@, old(sink)@).1,
{
    let backups = discover_backups(layout.bdmv, sink);
    let level = read_disc_level(root, layout, &backups.index, sink)?;
    let maps = build_file_maps(layout, &backups.clipinf, sink)?;
    let playlists = parse_playlists(layout.playlist, &backups.playlist, sink)?;
    Ok(Opened { level, maps, playlists })
}

/// The summaries of the playlists from the `i`th on, whether any is of 25 or 50 frames per
/// second, and the notes after they were made. A playlist that cannot be summarised ends a
/// strict scan; a resilient one notes it and leaves it out.
pub open spec fn summaries_from<T: StreamText>(
    text: T,
    playlists: Seq<PlaylistView>,
    i: int,
    clip_files: Seq<(Seq<char>, ClipFileView)>,
    stream_files: Seq<(Seq<char>, u64)>,
    interleaved_files: Seq<(Seq<char>, u64)>,
    scanned: Seq<(Seq<char>, FileView)>,
    measured: Seq<(Seq<char>, FileView)>,
    so_far: (Seq<PlaylistSummaryView>, bool),
    notes: Option<Seq<Note>>,
) -> (Result<(Seq<PlaylistSummaryView>, bool), Failure>, Option<Seq<Note>>)
    decreases playlists.len() - i,
{
    if i < 0 || i >= playlists.len() {
        (Ok(so_far), notes)
    } else {
        let p = playlists[i];
        match metas_of(p.clips, clip_files, stream_files, scanned, p.clips.len() as int) {
            Ok(metas) => {
                let (summary, hz) = summary_by(
                    text,
                    p,
                    metas,
                    stream_files,
                    interleaved_files,
                    measured,
                );
                summaries_from(
                    text,
                    playlists,
                    i + 1,
                    clip_files,
                    stream_files,
                    interleaved_files,
                    scanned,
                    measured,
                    (so_far.0.push(summary), so_far.1 || hz),
                    notes,
                )
            },
            Err(f) => {
                let after = noted(notes, ScanStage::Playlist, p.name, f);
                if notes is None {
                    (Err(f), after)
                } else {
                    summaries_from(
                        text,
                        playlists,
                        i + 1,
                        clip_files,
                        stream_files,
                        interleaved_files,
                        scanned,
                        measured,
                        so_far,
                        after,
                    )
                }
            },
        }
    }
}

/// The views of a list of summaries.
pub open spec fn summary_views(list: Seq<PlaylistSummary>) -> Seq<PlaylistSummaryView> {
    list.map_values(|s: PlaylistSummary| s@)
}

/// Summarises the playlists of a disc.
#[verifier::loop_isolation(false)]
pub fn summarise_playlists<T: StreamText>(
    text: &T,
    playlists: &Vec<TsPlaylistFile>,
    maps: &FileMaps,
    scanned: &NameTable<TsStreamFile>,
    measured: &NameTable<TsStreamFile>,
    sink: &mut Sink,
) -> (r: Result<(Vec<PlaylistSummary>, bool), BdError>)
    ensures
        ({
            let (want, after) = summaries_from(
                *text,
                playlist_views(playlists@),
                0,
                table_views(maps.clip_files@),
                maps.stream_files@,
                maps.interleaved_files@,
                table_views(scanned@),
                table_views(measured@),
                (Seq::empty(), false),
                old(sink)@,
            );
            &&& final(sink)@ == after
            &&& match want {
                Ok((list, hz)) => r is Ok && summary_views(r->Ok_0.0@) == list && r->Ok_0.1 == hz,
                Err(f) => r is Err && r->Err_0@ == f,
            }
        }),
{
    let ghost all = playlist_views(playlists@);
    let ghost whole = summaries_from(
        *text,
        all,
        0,
        table_views(maps.clip_files@),
        maps.stream_files@,
        maps.interleaved_files@,
        table_views(scanned@),
        table_views(measured@),
        (Seq::empty(), false),
        sink@,
    );
    let mut list: Vec<PlaylistSummary> = Vec::new();
    let mut is_50hz = false;
    let mut i: usize = 0;
    proof {
        assert(summary_views(list@) =~= Seq::empty());
    }
    while i < playlists.len()
        invariant
            i <= playlists@.len(),
            summaries_from(
                *text,
                all,
                i as int,
                table_views(maps.clip_files@),
                maps.stream_files@,
                maps.interleaved_files@,
                table_views(scanned@),
                table_views(measured@),
                (summary_views(list@), is_50hz),
                sink@,
            ) == whole,
        decreases playlists@.len() - i,
    {
        assert(all[i as int] == playlists@[i as int]@);
        let built = build_summary(
            text,
            &playlists[i],
            &maps.clip_files,
            &maps.stream_files,
            &maps.interleaved_files,
            scanned,
            measured,
        );
        let outcome = match built {
            Ok(pair) => Ok(Some(pair)),
            Err(e) => Err(e),
        };
        let kept = sink.absorb(
            ScanStage::Playlist,
            playlists[i].name.as_str(),
            None,
            outcome,
        )?;
        if let Some(pair) = kept {
            let (summary, hz) = pair;
            let ghost was = summary_views(list@);
            let ghost added = summary@;
            is_50hz = is_50hz || hz;
            list.push(summary);
            proof {
                assert(summary_views(list@) =~= was.push(added));
            }
        }
        i = i + 1;
    }
    Ok((list, is_50hz))
}

/// What a [`BdRom`] holds.
pub struct DiscView {
    pub level: LevelView,
    pub is_50hz: bool,
    pub playlists: Seq<PlaylistSummaryView>,
}

impl View for BdRom {
    type V = DiscView;

    open spec fn view(&self) -> DiscView {
        DiscView {
            level: LevelView {
                volume_label: self.volume_label@,
                disc_title: text_view(self.disc_title),
                size: self.size,
                interleaved_size: self.interleaved_size,
                is_3d: self.is_3d,
                is_uhd: self.is_uhd,
                is_aacs_encrypted: self.is_aacs_encrypted,
                is_bd_plus: self.is_bd_plus,
                is_bd_java: self.is_bd_java,
                is_dbox: self.is_dbox,
                is_psp: self.is_psp,
            },
            is_50hz: self.is_50hz,
            playlists: summary_views(self.playlists@),
        }
    }
}

/// Builds the report of a disc from its metadata and from what the two passes of the packet
/// scan have found; a scan that reads no packets has found nothing.
pub fn finish_disc<T: StreamText>(
    text: &T,
    disc: Opened,
    scanned: &NameTable<TsStreamFile>,
    measured: &NameTable<TsStreamFile>,
    sink: &mut Sink,
) -> (r: Result<BdRom, BdError>)
    ensures
        ({
            let (want, after) = summaries_from(
                *text,
                playlist_views(disc.playlists@),
                0,
                table_views(disc.maps.clip_files@),
                disc.maps.stream_files@,
                disc.maps.interleaved_files@,
                table_views(scanned@),
                table_views(measured@),
                (Seq::empty(), false),
                old(sink)@,
            );
            &&& final(sink)@ == after
            &&& match want {
                Ok((playlists, is_50hz)) => r is Ok && r->Ok_0@ == (DiscView {
                    level: disc.level@,
                    is_50hz,
                    playlists,
                }),
                Err(f) => r is Err && r->Err_0@ == f,
            }
        }),
{
    let (playlists, is_50hz) = summarise_playlists(
        text,
        &disc.playlists,
        &disc.maps,
        scanned,
        measured,
        sink,
    )?;
    let level = disc.level;
    Ok(
        BdRom {
            volume_label: level.volume_label,
            disc_title: level.disc_title,
            size: level.size,
            interleaved_size: level.interleaved_size,
            is_3d: level.is_3d,
            is_50hz,
            is_uhd: level.is_uhd,
            is_aacs_encrypted: level.is_aacs_encrypted,
            is_bd_plus: level.is_bd_plus,
            is_bd_java: level.is_bd_java,
            is_dbox: level.is_dbox,
            is_psp: level.is_psp,
            playlists,
        },
    )
}

} // verus!
