//! The measurement of a disc: the packet scans of its stream files, in two passes.
//!
//! The quick pass finds the codec detail, which the playlists then present. The full pass
//! reads every packet and attributes it to the clips and the presented streams.

use vstd::prelude::*;
use vstd::string::*;

use super::catalog::{FileMaps, MapsView};
use super::disc::capped;
use super::discovery::{dir_value, DirEntry, FileEntry};
use super::m2ts::{blank_file, FileView, TsStreamFile};
use super::mpls::{playlist_views, PlaylistView, TsPlaylistFile};
use super::open::Listing;
use super::passes::{
    file_over, heard, jobs_of, lemma_jobs_name_listed_files, pass_bytes, plan_of, plan_stream_scan,
    prepare_playlists, prepared, refresh_playlists, refreshed, scan_total, selection_view, telling,
    Event, Heard, JobView, PlanView, Progress, ScanObserver, StreamPlan,
};
use super::scan::{cut, outcome_of, scan_told, step_of, AccessUnits, ByteSource, MemSource};
use super::sink::{noted, settle_stream_scan, Sink, StreamScan};
use crate::error::{BdError, Failure, Note, ScanStage};
use crate::names::{lemma_put_views, put, table_views, NameTable};
use crate::text::{to_ascii_uppercase, upper};

verus! {

// ---- where the stream files are read ----

/// Where the bytes of the stream files come from.
pub trait StreamStore {
    /// What reads a file.
    type Reader: ByteSource;

    /// What an open file gives: its chunks, and what the reading of them fails with. The
    /// two passes may cut a file differently. By default there is nothing in it.
    open spec fn content(&self, file: FileEntry, interleaved: bool, full: bool) -> Result<
        (Seq<Seq<u8>>, Option<Failure>),
        Failure,
    > {
        Ok((Seq::empty(), None))
    }

    /// Opens a stream file, or an interleaved one, for a quick or a full pass.
    fn open(&self, file: &FileEntry, interleaved: bool, full: bool) -> (r: Result<
        Self::Reader,
        BdError,
    >)
        ensures
            match self.content(*file, interleaved, full) {
                Ok((chunks, failure)) => r is Ok && r->Ok_0.chunks() == chunks
                    && r->Ok_0.failure() == failure,
                Err(f) => r is Err && r->Err_0@ == f,
            },
    ;
}

/// Stream files whose bytes their entries hold, read in chunks of one size.
#[derive(Debug, Clone, Copy)]
pub struct HeldFiles {
    /// The chunk size, bytes.
    pub chunk_size: usize,
}

impl StreamStore for HeldFiles {
    type Reader = MemSource;

    open spec fn content(&self, file: FileEntry, interleaved: bool, full: bool) -> Result<
        (Seq<Seq<u8>>, Option<Failure>),
        Failure,
    > {
        match file.content {
            Ok(bytes) => Ok((cut(bytes@, 0, step_of(self.chunk_size)), None)),
            Err(e) => Err(e@),
        }
    }

    fn open(&self, file: &FileEntry, interleaved: bool, full: bool) -> (r: Result<
        MemSource,
        BdError,
    >) {
        match &file.content {
            Ok(bytes) => {
                let copy = bytes.clone();
                proof {
                    assert(copy@ =~= bytes@);
                }
                Ok(MemSource::new(copy, self.chunk_size, None))
            },
            Err(e) => Err(e.duplicate()),
        }
    }
}

// ---- one stream file ----

/// What a [`StreamScan`] holds.
pub enum StreamScanView {
    Complete(FileView),
    Partial(FileView, Failure),
    Nothing(Failure),
}

impl View for StreamScan {
    type V = StreamScanView;

    open spec fn view(&self) -> StreamScanView {
        match *self {
            StreamScan::Complete(file) => StreamScanView::Complete(file@),
            StreamScan::Partial(file, reason) => StreamScanView::Partial(file@, reason@),
            StreamScan::Nothing(reason) => StreamScanView::Nothing(reason@),
        }
    }
}

/// The scan of one stream file, through its interleaved source where it has one: what comes
/// of it, and the playlists after it.
pub open spec fn one_scan<A: AccessUnits, S: StreamStore>(
    units: A,
    store: S,
    file: FileEntry,
    interleaved: Option<FileEntry>,
    playlists: Seq<PlaylistView>,
    full: bool,
) -> (StreamScanView, Seq<PlaylistView>) {
    let (content, source) = match interleaved {
        Some(s) => (store.content(s, true, full), Some(upper(s.name@))),
        None => (store.content(file, false, full), None),
    };
    match content {
        Err(f) => (StreamScanView::Nothing(f), playlists),
        Ok((chunks, failure)) => {
            let o = outcome_of(
                units,
                blank_file(upper(file.name@), source),
                playlists,
                chunks,
                failure,
                full,
            );
            let kept = FileView { stream_states: Map::empty(), ..o.file };
            (
                match o.failure {
                    None => StreamScanView::Complete(kept),
                    Some(f) => StreamScanView::Partial(kept, f),
                },
                o.playlists,
            )
        },
    }
}

/// How far a pass is after the scan of one stream file, and what the observer has been told.
pub open spec fn one_told<A: AccessUnits, S: StreamStore>(
    units: A,
    store: S,
    file: FileEntry,
    interleaved: Option<FileEntry>,
    playlists: Seq<PlaylistView>,
    full: bool,
    h: Heard,
    name: Seq<char>,
) -> Heard {
    let (content, source) = match interleaved {
        Some(s) => (store.content(s, true, full), Some(upper(s.name@))),
        None => (store.content(file, false, full), None),
    };
    match content {
        Err(_) => h,
        Ok((chunks, failure)) => scan_told(
            units,
            blank_file(upper(file.name@), source),
            playlists,
            chunks,
            failure,
            full,
            h,
            name,
        ),
    }
}

/// Scans one stream file. Where its source does not open there is nothing to keep; where
/// the reading fails partway there is what was measured up to there.
pub fn scan_one_stream_file<A: AccessUnits, S: StreamStore, O: ScanObserver>(
    units: &A,
    store: &S,
    file: &FileEntry,
    interleaved: Option<&FileEntry>,
    playlists: &mut Vec<TsPlaylistFile>,
    full: bool,
    name: &str,
    progress: &mut Progress,
    observer: &mut O,
) -> (r: StreamScan)
    ensures
        (r@, playlist_views(final(playlists)@)) == one_scan(
            *units,
            *store,
            *file,
            match interleaved {
                Some(s) => Some(*s),
                None => None,
            },
            playlist_views(old(playlists)@),
            full,
        ),
        heard(*final(progress), *final(observer)) == one_told(
            *units,
            *store,
            *file,
            match interleaved {
                Some(s) => Some(*s),
                None => None,
            },
            playlist_views(old(playlists)@),
            full,
            heard(*old(progress), *old(observer)),
            name@,
        ),
{
    let mut stream_file = TsStreamFile::new(file.name.as_str());
    let opened = match interleaved {
        Some(source) => {
            stream_file.interleaved_file = Some(to_ascii_uppercase(source.name.as_str()));
            store.open(source, true, full)
        },
        None => store.open(file, false, full),
    };
    match opened {
        Err(e) => StreamScan::Nothing(e),
        Ok(mut reader) => {
            let scan = stream_file.scan_counted(
                units,
                &mut reader,
                playlists,
                full,
                name,
                progress,
                observer,
            );
            stream_file.release_scratch();
            match scan {
                Ok(_) => StreamScan::Complete(stream_file),
                Err(e) => StreamScan::Partial(stream_file, e),
            }
        },
    }
}

// ---- one pass ----

/// Where a pass is: the playlists, the notes, the stream files scanned so far, the failure
/// that it has ended with, and what the observer has been told.
pub struct PassView {
    pub playlists: Seq<PlaylistView>,
    pub notes: Option<Seq<Note>>,
    pub files: Seq<(Seq<char>, FileView)>,
    pub failure: Option<Failure>,
    pub heard: Heard,
}

/// A pass after a stream file whose scan has failed. A scan that was asked to stop stops,
/// without a note. Any other failure ends a strict pass; a resilient one notes it, and has
/// `kept` in the file's place.
pub open spec fn failed_file(
    v: PassView,
    key: Seq<char>,
    name: Seq<char>,
    reason: Failure,
    kept: Option<FileView>,
) -> PassView {
    if reason is ScanCancelled {
        PassView { failure: Some(reason), ..v }
    } else if v.notes is None {
        PassView { failure: Some(reason), ..v }
    } else {
        PassView {
            notes: noted(v.notes, ScanStage::StreamFile, name, reason),
            files: match kept {
                Some(f) => put(v.files, key, f),
                None => v.files,
            },
            ..v
        }
    }
}

/// Whether a scan was asked to stop.
pub open spec fn was_stopped(scan: StreamScanView) -> bool {
    match scan {
        StreamScanView::Complete(_) => false,
        StreamScanView::Partial(_, reason) => reason is ScanCancelled,
        StreamScanView::Nothing(reason) => reason is ScanCancelled,
    }
}

/// A pass after a job whose scan has told `h`: a file that is over takes it up to the end of
/// its share, however the scan went, unless the scan was asked to stop.
pub open spec fn job_told(before: Progress, job: JobView, scan: StreamScanView, h: Heard) -> Heard {
    if was_stopped(scan) {
        h
    } else {
        telling(
            h,
            file_over(h.progress, capped(before.done + job.source_size)),
            job.name,
        )
    }
}

/// A pass after one more job of its plan.
pub open spec fn pass_step<A: AccessUnits, S: StreamStore>(
    units: A,
    store: S,
    plan: PlanView,
    job: JobView,
    v: PassView,
    keep_partial: bool,
    full: bool,
) -> PassView {
    let file = plan.files[job.file];
    let interleaved = match job.interleaved {
        Some(k) => Some(plan.interleaved[k]),
        None => None,
    };
    let (scan, playlists) = one_scan(units, store, file, interleaved, v.playlists, full);
    let told = one_told(
        units,
        store,
        file,
        interleaved,
        v.playlists,
        full,
        v.heard,
        job.name,
    );
    let w = PassView { playlists, heard: job_told(v.heard.progress, job, scan, told), ..v };
    match scan {
        StreamScanView::Complete(f) => PassView { files: put(w.files, job.name, f), ..w },
        StreamScanView::Partial(f, reason) => failed_file(
            w,
            job.name,
            file.name@,
            reason,
            if keep_partial {
                Some(f)
            } else {
                None
            },
        ),
        StreamScanView::Nothing(reason) => failed_file(w, job.name, file.name@, reason, None),
    }
}

/// A pass after the first `n` jobs of its plan.
pub open spec fn pass_over<A: AccessUnits, S: StreamStore>(
    units: A,
    store: S,
    plan: PlanView,
    n: int,
    start: PassView,
    keep_partial: bool,
    full: bool,
) -> PassView
    decreases n,
{
    if n <= 0 {
        start
    } else {
        let v = pass_over(units, store, plan, n - 1, start, keep_partial, full);
        if v.failure is Some {
            v
        } else {
            pass_step(units, store, plan, plan.jobs[n - 1], v, keep_partial, full)
        }
    }
}

/// A pass over the stream files of a disc that take part.
pub open spec fn pass_of<A: AccessUnits, S: StreamStore>(
    units: A,
    store: S,
    stream: Option<DirEntry>,
    ssif: Option<DirEntry>,
    selection: Option<Seq<Seq<char>>>,
    playlists: Seq<PlaylistView>,
    notes: Option<Seq<Note>>,
    keep_partial: bool,
    full: bool,
    heard: Heard,
) -> PassView {
    let (plan, after) = plan_of(stream, ssif, selection, notes);
    let start = PassView { playlists, notes: after, files: Seq::empty(), failure: None, heard };
    match plan {
        Err(f) => PassView { failure: Some(f), ..start },
        Ok(plan) => pass_over(
            units,
            store,
            plan,
            plan.jobs.len() as int,
            start,
            keep_partial,
            full,
        ),
    }
}

proof fn lemma_pass_stays_ended<A: AccessUnits, S: StreamStore>(
    units: A,
    store: S,
    plan: PlanView,
    k: int,
    n: int,
    start: PassView,
    keep_partial: bool,
    full: bool,
)
    requires
        k <= n,
        pass_over(units, store, plan, k, start, keep_partial, full).failure is Some,
    ensures
        pass_over(units, store, plan, n, start, keep_partial, full) == pass_over(
            units,
            store,
            plan,
            k,
            start,
            keep_partial,
            full,
        ),
    decreases n - k,
{
    if k < n {
        lemma_pass_stays_ended(units, store, plan, k, n - 1, start, keep_partial, full);
    }
}

/// The file of a list at an index.
fn file_at<'a>(files: &Listing<'a>, k: usize) -> (r: &'a FileEntry)
    requires
        k < files@.len(),
    ensures
        *r == files@[k as int],
{
    &files.files.unwrap()[k]
}

/// Scans the stream file of a job.
fn scan_job<'a, A: AccessUnits, S: StreamStore, O: ScanObserver>(
    units: &A,
    store: &S,
    plan: &StreamPlan<'a>,
    i: usize,
    table: &mut NameTable<TsStreamFile>,
    playlists: &mut Vec<TsPlaylistFile>,
    sink: &mut Sink,
    keep_partial: bool,
    full: bool,
    progress: &mut Progress,
    observer: &mut O,
) -> (r: Result<(), BdError>)
    requires
        i < plan.jobs@.len(),
        plan.jobs@[i as int].file < plan@.files.len(),
        plan.jobs@[i as int].interleaved is Some ==> plan.jobs@[i as int].interleaved->Some_0
            < plan@.interleaved.len(),
    ensures
        ({
            let want = pass_step(
                *units,
                *store,
                plan@,
                plan@.jobs[i as int],
                PassView {
                    playlists: playlist_views(old(playlists)@),
                    notes: old(sink)@,
                    files: table_views(old(table)@),
                    failure: None,
                    heard: heard(*old(progress), *old(observer)),
                },
                keep_partial,
                full,
            );
            &&& final(sink)@ == want.notes
            &&& playlist_views(final(playlists)@) == want.playlists
            &&& heard(*final(progress), *final(observer)) == want.heard
            &&& match want.failure {
                Some(f) => r is Err && r->Err_0@ == f,
                None => r is Ok && table_views(final(table)@) == want.files,
            }
        }),
{
    let job = &plan.jobs[i];
    proof {
        assert(plan@.jobs[i as int] == job@);
    }
    let file = file_at(&plan.files, job.file);
    let interleaved = match job.interleaved {
        Some(k) => Some(file_at(&plan.interleaved, k)),
        None => None,
    };
    let target: u64 = progress.target(job.source_size);
    let scan = scan_one_stream_file(
        units,
        store,
        file,
        interleaved,
        playlists,
        full,
        job.name.as_str(),
        progress,
        observer,
    );
    let stopped = match &scan {
        StreamScan::Partial(_, e) => matches!(e, BdError::ScanCancelled),
        StreamScan::Nothing(e) => matches!(e, BdError::ScanCancelled),
        StreamScan::Complete(_) => false,
    };
    if !stopped {
        let _ = progress.finish_file(job.name.as_str(), target);
        progress.tell(observer, job.name.as_str());
    }
    let settled = settle_stream_scan(sink, file.name.as_str(), keep_partial, scan)?;
    if let Some(scanned) = settled {
        proof {
            lemma_put_views(table@, job.name@, scanned);
        }
        table.insert(job.name.clone(), scanned);
    }
    Ok(())
}

/// Scans every stream file that takes part, keyed by upper-cased name.
///
/// A scan that was asked to stop ends the pass without a note. Any other failure ends a
/// strict pass; a resilient one notes it and goes on, with the partial file where one is to
/// be kept. The observer is told how far the pass is, where it is the observed one.
#[verifier::loop_isolation(false)]
pub fn scan_stream_files<A: AccessUnits, S: StreamStore, O: ScanObserver>(
    units: &A,
    store: &S,
    stream: Option<&DirEntry>,
    ssif: Option<&DirEntry>,
    selection: Option<&Vec<String>>,
    playlists: &mut Vec<TsPlaylistFile>,
    sink: &mut Sink,
    keep_partial: bool,
    full: bool,
    progress: &mut Progress,
    observer: &mut O,
) -> (r: Result<NameTable<TsStreamFile>, BdError>)
    ensures
        ({
            let want = pass_of(
                *units,
                *store,
                dir_value(stream),
                dir_value(ssif),
                selection_view(selection),
                playlist_views(old(playlists)@),
                old(sink)@,
                keep_partial,
                full,
                heard(*old(progress), *old(observer)),
            );
            &&& final(sink)@ == want.notes
            &&& playlist_views(final(playlists)@) == want.playlists
            &&& heard(*final(progress), *final(observer)) == want.heard
            &&& match want.failure {
                Some(f) => r is Err && r->Err_0@ == f,
                None => r is Ok && table_views(r->Ok_0@) == want.files,
            }
        }),
{
    let plan = plan_stream_scan(stream, ssif, selection, sink)?;
    let ghost p = plan@;
    let mut table: NameTable<TsStreamFile> = NameTable::new();
    proof {
        assert(table_views(table@) =~= Seq::empty());
        lemma_jobs_name_listed_files(
            p.files,
            p.interleaved,
            selection_view(selection),
            p.files.len() as int,
        );
    }
    let ghost start = PassView {
        playlists: playlist_views(playlists@),
        notes: sink@,
        files: Seq::empty(),
        failure: None,
        heard: heard(*progress, *observer),
    };
    let mut i: usize = 0;
    while i < plan.jobs.len()
        invariant
            i <= plan.jobs@.len(),
            pass_over(*units, *store, p, i as int, start, keep_partial, full) == (PassView {
                playlists: playlist_views(playlists@),
                notes: sink@,
                files: table_views(table@),
                failure: None,
                heard: heard(*progress, *observer),
            }),
        decreases plan.jobs@.len() - i,
    {
        proof {
            assert(p.jobs[i as int] == plan.jobs@[i as int]@);
            assert(p.jobs == jobs_of(
                p.files,
                p.interleaved,
                selection_view(selection),
                p.files.len() as int,
            ));
            let next = pass_over(*units, *store, p, i + 1, start, keep_partial, full);
            if next.failure is Some {
                lemma_pass_stays_ended(
                    *units,
                    *store,
                    p,
                    i + 1,
                    p.jobs.len() as int,
                    start,
                    keep_partial,
                    full,
                );
            }
        }
        scan_job(
            units,
            store,
            &plan,
            i,
            &mut table,
            playlists,
            sink,
            keep_partial,
            full,
            progress,
            observer,
        )?;
        i = i + 1;
    }
    Ok(table)
}

// ---- the two passes ----

/// The measurement of a disc: the playlists and the notes after it, the stream files of the
/// two passes, the failure that it has ended with, and what the observer has been told.
pub struct MeasureView {
    pub playlists: Seq<PlaylistView>,
    pub notes: Option<Seq<Note>>,
    pub quick: Seq<(Seq<char>, FileView)>,
    pub full: Seq<(Seq<char>, FileView)>,
    pub failure: Option<Failure>,
    pub told: Seq<Event>,
}

/// The measurement of a disc. After the quick pass the playlists present what it has found;
/// without a full pass that is all. After the full pass they present the graphics detail
/// that it has found. The last pass that is made is the one that is observed, over the bytes
/// of every stream file that takes part.
pub open spec fn measured_by<A: AccessUnits, S: StreamStore>(
    units: A,
    store: S,
    stream: Option<DirEntry>,
    ssif: Option<DirEntry>,
    selection: Option<Seq<Seq<char>>>,
    maps: MapsView,
    playlists: Seq<PlaylistView>,
    notes: Option<Seq<Note>>,
    measure: bool,
    keep_partial: bool,
    told: Seq<Event>,
) -> MeasureView {
    let total = capped(
        pass_bytes(
            maps.stream_files,
            maps.interleaved_files,
            selection,
            maps.stream_files.len() as int,
        ),
    );
    let silent = Progress { observed: false, done: 0, total: 0 };
    let observed = Progress { observed: true, done: 0, total };
    let quick = pass_of(
        units,
        store,
        stream,
        ssif,
        selection,
        playlists,
        notes,
        keep_partial,
        false,
        Heard {
            progress: if measure {
                silent
            } else {
                observed
            },
            told,
        },
    );
    if quick.failure is Some {
        MeasureView {
            playlists: quick.playlists,
            notes: quick.notes,
            quick: Seq::empty(),
            full: Seq::empty(),
            failure: quick.failure,
            told: quick.heard.told,
        }
    } else {
        let ready = quick.playlists.map_values(
            |p: PlaylistView| prepared(p, maps.clip_files, maps.stream_files, quick.files),
        );
        if !measure {
            MeasureView {
                playlists: ready,
                notes: quick.notes,
                quick: quick.files,
                full: Seq::empty(),
                failure: None,
                told: quick.heard.told,
            }
        } else {
            let full = pass_of(
                units,
                store,
                stream,
                ssif,
                selection,
                ready,
                quick.notes,
                keep_partial,
                true,
                Heard { progress: observed, told: quick.heard.told },
            );
            MeasureView {
                playlists: if full.failure is Some {
                    full.playlists
                } else {
                    full.playlists.map_values(
                        |p: PlaylistView|
                            refreshed(p, maps.clip_files, maps.stream_files, full.files),
                    )
                },
                notes: full.notes,
                quick: quick.files,
                full: full.files,
                failure: full.failure,
                told: full.heard.told,
            }
        }
    }
}

/// Measures a disc: a quick pass over its stream files for the codec detail and, where
/// `measure` is set, a full one for the rates. Returns the stream files of the two passes.
///
/// The last pass that is made is the one that is observed.
pub fn run_measurement_scan<A: AccessUnits, S: StreamStore, O: ScanObserver>(
    units: &A,
    store: &S,
    stream: Option<&DirEntry>,
    ssif: Option<&DirEntry>,
    selection: Option<&Vec<String>>,
    maps: &FileMaps,
    playlists: &mut Vec<TsPlaylistFile>,
    sink: &mut Sink,
    measure: bool,
    keep_partial: bool,
    observer: &mut O,
) -> (r: Result<(NameTable<TsStreamFile>, NameTable<TsStreamFile>), BdError>)
    ensures
        ({
            let want = measured_by(
                *units,
                *store,
                dir_value(stream),
                dir_value(ssif),
                selection_view(selection),
                maps@,
                playlist_views(old(playlists)@),
                old(sink)@,
                measure,
                keep_partial,
                old(observer).told(),
            );
            &&& final(observer).told() == want.told
            &&& final(sink)@ == want.notes
            &&& playlist_views(final(playlists)@) == want.playlists
            &&& match want.failure {
                Some(f) => r is Err && r->Err_0@ == f,
                None => r is Ok && table_views(r->Ok_0.0@) == want.quick && table_views(
                    r->Ok_0.1@,
                ) == want.full,
            }
        }),
{
    let total: u64 = scan_total(&maps.stream_files, &maps.interleaved_files, selection);
    let mut quick_progress = if measure {
        Progress::silent()
    } else {
        Progress::new(total)
    };
    let quick = scan_stream_files(
        units,
        store,
        stream,
        ssif,
        selection,
        playlists,
        sink,
        keep_partial,
        false,
        &mut quick_progress,
        observer,
    )?;
    prepare_playlists(playlists, &maps.clip_files, &maps.stream_files, &quick);
    if !measure {
        let none: NameTable<TsStreamFile> = NameTable::new();
        proof {
            assert(table_views(none@) =~= Seq::empty());
        }
        return Ok((quick, none));
    }
    let mut progress = Progress::new(total);
    let full = scan_stream_files(
        units,
        store,
        stream,
        ssif,
        selection,
        playlists,
        sink,
        keep_partial,
        true,
        &mut progress,
        observer,
    )?;
    refresh_playlists(playlists, &maps.clip_files, &maps.stream_files, &full);
    Ok((quick, full))
}

} // verus!
