//! The two passes of a packet scan: which bytes they read, how far they are, and what the
//! playlists take over between them.
//!
//! The quick pass reads each stream file as far as its codec detail needs, the full pass
//! reads it whole. A caller observes the last pass that a scan makes.

use vstd::prelude::*;
use vstd::string::*;

use super::catalog::{list_files, listing_step};
use super::clpi::{ClipFileView, TsStreamClipFile};
use super::disc::{capped, ScanProgress};
use super::discovery::{dir_value, has_kind, is_kind, BdFileKind, DirEntry, FileEntry};
use super::m2ts::{FileView, TsStreamFile};
use super::merge::merged_map;
use super::mpls::{playlist_views, PlaylistView, TsPlaylistFile};
use super::open::Listing;
use super::resolve::{
    clear_measurements, cleared, collect_clip_metas, metas_of, remerge_graphics_detail,
    resolve_playlist_streams, resolved, select_reference, selected, sibling, stem,
};
use super::sink::Sink;
use crate::error::{BdError, Failure, Note};
use crate::names::{find, table_views, NameTable};
use crate::text::{same, to_ascii_uppercase, upper};

verus! {

/// Whether a stream file takes part in the scan; without a selection every one does.
pub open spec fn takes_part(name: Seq<char>, selection: Option<Seq<Seq<char>>>) -> bool {
    match selection {
        Some(names) => names.contains(name),
        None => true,
    }
}

/// The names of a selection.
pub open spec fn selection_view(selection: Option<&Vec<String>>) -> Option<Seq<Seq<char>>> {
    match selection {
        Some(names) => Some(names@.map_values(|s: String| s@)),
        None => None,
    }
}

/// Whether a stream file takes part in the scan.
#[verifier::loop_isolation(false)]
pub fn is_selected(name: &str, selection: Option<&Vec<String>>) -> (r: bool)
    ensures
        r == takes_part(name@, selection_view(selection)),
{
    match selection {
        Some(names) => {
            let ghost views = names@.map_values(|s: String| s@);
            let mut i: usize = 0;
            while i < names.len()
                invariant
                    i <= names@.len(),
                    views == names@.map_values(|s: String| s@),
                    forall|k: int| 0 <= k < i ==> #[trigger] views[k] != name@,
                decreases names@.len() - i,
            {
                assert(views[i as int] == names@[i as int]@);
                if same(names[i].as_str(), name) {
                    assert(views.contains(name@));
                    return true;
                }
                i = i + 1;
            }
            assert(!views.contains(name@));
            false
        },
        None => true,
    }
}

/// The bytes that are read of a stream file: those of its interleaved source where there
/// is one, else its own.
pub open spec fn source_size(
    name: Seq<char>,
    size: u64,
    interleaved_files: Seq<(Seq<char>, u64)>,
) -> u64 {
    match find(interleaved_files, stem(name) + ".SSIF"@) {
        Some(interleaved) => interleaved,
        None => size,
    }
}

/// The bytes that a pass reads of the first `n` stream files.
pub open spec fn pass_bytes(
    stream_files: Seq<(Seq<char>, u64)>,
    interleaved_files: Seq<(Seq<char>, u64)>,
    selection: Option<Seq<Seq<char>>>,
    n: int,
) -> int
    decreases n,
{
    if n <= 0 {
        0
    } else {
        pass_bytes(stream_files, interleaved_files, selection, n - 1) + (if takes_part(
            stream_files[n - 1].0,
            selection,
        ) {
            source_size(stream_files[n - 1].0, stream_files[n - 1].1, interleaved_files) as int
        } else {
            0
        })
    }
}

/// No pass reads less than nothing.
pub proof fn lemma_pass_bytes_nonneg(
    stream_files: Seq<(Seq<char>, u64)>,
    interleaved_files: Seq<(Seq<char>, u64)>,
    selection: Option<Seq<Seq<char>>>,
    n: int,
)
    ensures
        pass_bytes(stream_files, interleaved_files, selection, n) >= 0,
    decreases n,
{
    if n > 0 {
        lemma_pass_bytes_nonneg(stream_files, interleaved_files, selection, n - 1);
    }
}

/// The bytes that the observed pass reads: of every selected stream file its source, once.
pub fn scan_total(
    stream_files: &NameTable<u64>,
    interleaved_files: &NameTable<u64>,
    selection: Option<&Vec<String>>,
) -> (r: u64)
    ensures
        r == capped(
            pass_bytes(
                stream_files@,
                interleaved_files@,
                selection_view(selection),
                stream_files@.len() as int,
            ),
        ),
{
    let mut total: u64 = 0;
    let mut i: usize = 0;
    while i < stream_files.len()
        invariant
            i <= stream_files@.len(),
            total == capped(
                pass_bytes(
                    stream_files@,
                    interleaved_files@,
                    selection_view(selection),
                    i as int,
                ),
            ),
        decreases stream_files@.len() - i,
    {
        proof {
            lemma_pass_bytes_nonneg(
                stream_files@,
                interleaved_files@,
                selection_view(selection),
                i as int,
            );
        }
        let name = stream_files.name_at(i);
        if is_selected(name, selection) {
            let ssif = sibling(name, ".SSIF");
            let source: u64 = match interleaved_files.get(ssif.as_str()) {
                Some(size) => *size,
                None => *stream_files.value_at(i),
            };
            total = total.saturating_add(source);
        }
        i = i + 1;
    }
    total
}

/// What an observer is told: how far the observed pass is, and the stream file that is being
/// read.
pub struct Event {
    pub file: Seq<char>,
    pub done: u64,
    pub total: u64,
}

impl<'a> View for ScanProgress<'a> {
    type V = Event;

    open spec fn view(&self) -> Event {
        Event { file: self.file@, done: self.done, total: self.total }
    }
}

/// Who is told how far a scan is.
pub trait ScanObserver {
    /// What the observer has been told so far: by default nothing.
    open spec fn told(&self) -> Seq<Event> {
        Seq::empty()
    }

    /// Is told how far the observed pass is.
    fn observe(&mut self, progress: ScanProgress<'_>)
        ensures
            final(self).told() == old(self).told().push(progress@),
    ;
}

/// An observer that does nothing with what it is told.
pub struct Indifferent {
    told: Ghost<Seq<Event>>,
}

impl Indifferent {
    /// An observer that has not been told anything yet.
    pub fn new() -> (r: Self)
        ensures
            r.told() == Seq::<Event>::empty(),
    {
        Indifferent { told: Ghost(Seq::empty()) }
    }
}

impl ScanObserver for Indifferent {
    closed spec fn told(&self) -> Seq<Event> {
        self.told@
    }

    fn observe(&mut self, progress: ScanProgress<'_>) {
        self.told = Ghost(self.told@.push(progress@));
    }
}

/// How far a pass is.
#[derive(Debug, Clone, Copy, PartialEq, Eq, Structural)]
pub struct Progress {
    /// Whether it is the pass that the caller observes.
    pub observed: bool,
    /// The bytes read so far.
    pub done: u64,
    /// The bytes that there are to read.
    pub total: u64,
}

/// A count no higher than the total.
pub open spec fn clamped(x: int, total: u64) -> u64 {
    if x > total {
        total
    } else {
        x as u64
    }
}

/// What is told of a pass while `file` is being read.
pub open spec fn event_of(p: Progress, file: Seq<char>) -> Event {
    Event { file, done: p.done, total: p.total }
}

/// A pass after more bytes, no further than at the total.
pub open spec fn advanced(p: Progress, bytes: int) -> Progress {
    Progress { done: clamped(p.done + bytes, p.total), ..p }
}

/// A pass after a file that takes it up to `target`, and never back.
pub open spec fn file_over(p: Progress, target: u64) -> Progress {
    Progress {
        done: clamped(
            if target > p.done {
                target as int
            } else {
                p.done as int
            },
            p.total,
        ),
        ..p
    }
}

/// How far a pass is, and what the observer has been told.
pub struct Heard {
    pub progress: Progress,
    pub told: Seq<Event>,
}

/// A pass that has come to `p`, which the observer is told, where it is the observed one.
pub open spec fn telling(h: Heard, p: Progress, file: Seq<char>) -> Heard {
    Heard {
        progress: p,
        told: if p.observed {
            h.told.push(event_of(p, file))
        } else {
            h.told
        },
    }
}

/// How far a pass is, and what the observer has been told.
pub open spec fn heard<O: ScanObserver>(progress: Progress, observer: O) -> Heard {
    Heard { progress, told: observer.told() }
}

impl Progress {
    /// The observed pass, over `total` bytes, before the first.
    pub fn new(total: u64) -> (r: Self)
        ensures
            r == (Progress { observed: true, done: 0, total }),
    {
        Progress { observed: true, done: 0, total }
    }

    /// A pass that nobody observes.
    pub fn silent() -> (r: Self)
        ensures
            r == (Progress { observed: false, done: 0, total: 0 }),
    {
        Progress { observed: false, done: 0, total: 0 }
    }

    /// Moves on by bytes read from `file`, no further than to the total.
    pub fn advance<'a>(&mut self, file: &'a str, bytes: u64) -> (r: ScanProgress<'a>)
        ensures
            *final(self) == advanced(*old(self), bytes as int),
            r@ == event_of(*final(self), file@),
    {
        let next: u64 = self.done.saturating_add(bytes);
        self.done = if next > self.total {
            self.total
        } else {
            next
        };
        self.heartbeat(file)
    }

    /// Where the pass is, without moving on.
    pub fn heartbeat<'a>(&self, file: &'a str) -> (r: ScanProgress<'a>)
        ensures
            r@ == event_of(*self, file@),
    {
        ScanProgress { file, done: self.done, total: self.total }
    }

    /// Where the pass is to be once a file of `source_size` bytes is finished.
    pub fn target(&self, source_size: u64) -> (r: u64)
        ensures
            r == capped(self.done + source_size),
    {
        self.done.saturating_add(source_size)
    }

    /// Moves up to the end of a finished file, and never back.
    pub fn finish_file<'a>(&mut self, file: &'a str, target: u64) -> (r: ScanProgress<'a>)
        ensures
            *final(self) == file_over(*old(self), target),
            r@ == event_of(*final(self), file@),
    {
        let next: u64 = if target > self.done {
            target
        } else {
            self.done
        };
        self.done = if next > self.total {
            self.total
        } else {
            next
        };
        self.heartbeat(file)
    }

    /// Tells `observer` where the pass is, where it is the observed one.
    pub fn tell<O: ScanObserver>(&self, observer: &mut O, file: &str)
        ensures
            heard(*self, *final(observer)) == telling(heard(*self, *old(observer)), *self, file@),
    {
        if self.observed {
            observer.observe(self.heartbeat(file));
        }
    }
}

// ---- what a pass reads ----

/// One stream file that a pass reads.
#[derive(Debug)]
pub struct StreamJob {
    /// Which of the listed stream files it is.
    pub file: usize,
    /// Its upper-cased name.
    pub name: String,
    /// Which of the listed interleaved files is read in its place.
    pub interleaved: Option<usize>,
    /// The bytes that there are to read.
    pub source_size: u64,
}

/// What a [`StreamJob`] holds.
pub struct JobView {
    pub file: int,
    pub name: Seq<char>,
    pub interleaved: Option<int>,
    pub source_size: u64,
}

impl View for StreamJob {
    type V = JobView;

    open spec fn view(&self) -> JobView {
        JobView {
            file: self.file as int,
            name: self.name@,
            interleaved: match self.interleaved {
                Some(k) => Some(k as int),
                None => None,
            },
            source_size: self.source_size,
        }
    }
}

/// The views of a list of jobs.
pub open spec fn job_views(jobs: Seq<StreamJob>) -> Seq<JobView> {
    jobs.map_values(|j: StreamJob| j@)
}

/// The last of the first `n` files that is an interleaved one with the upper-cased name
/// `key`.
pub open spec fn interleaved_at(files: Seq<FileEntry>, key: Seq<char>, n: int) -> Option<int>
    decreases n,
{
    if n <= 0 {
        None
    } else if is_kind(files[n - 1].name@, BdFileKind::Interleaved) && upper(files[n - 1].name@)
        == key {
        Some(n - 1)
    } else {
        interleaved_at(files, key, n - 1)
    }
}

/// Whether one of the jobs reads the interleaved file `k`.
pub open spec fn is_read(jobs: Seq<JobView>, k: int) -> bool {
    exists|j: int| 0 <= j < jobs.len() && #[trigger] jobs[j].interleaved == Some(k)
}

/// The job of a stream file after those before it: an interleaved file is read once.
pub open spec fn job_of(files: Seq<FileEntry>, i: int, ssif: Seq<FileEntry>, jobs: Seq<JobView>) -> JobView {
    let name = upper(files[i].name@);
    let found = interleaved_at(ssif, stem(name) + ".SSIF"@, ssif.len() as int);
    let interleaved = match found {
        Some(k) => if is_read(jobs, k) {
            None
        } else {
            Some(k)
        },
        None => None,
    };
    JobView {
        file: i,
        name,
        interleaved,
        source_size: match interleaved {
            Some(k) => ssif[k].length,
            None => files[i].length,
        },
    }
}

/// The jobs of the first `n` files: one for each stream file that takes part.
pub open spec fn jobs_of(
    files: Seq<FileEntry>,
    ssif: Seq<FileEntry>,
    selection: Option<Seq<Seq<char>>>,
    n: int,
) -> Seq<JobView>
    decreases n,
{
    if n <= 0 {
        Seq::empty()
    } else {
        let jobs = jobs_of(files, ssif, selection, n - 1);
        if is_kind(files[n - 1].name@, BdFileKind::Stream) && takes_part(
            upper(files[n - 1].name@),
            selection,
        ) {
            jobs.push(job_of(files, n - 1, ssif, jobs))
        } else {
            jobs
        }
    }
}

/// The files of a directory that may not be there, and the notes after they were listed.
pub open spec fn optional_listing(dir: Option<DirEntry>, notes: Option<Seq<Note>>) -> (
    Result<Seq<FileEntry>, Failure>,
    Option<Seq<Note>>,
) {
    match dir {
        Some(d) => listing_step(d, notes),
        None => (Ok(Seq::empty()), notes),
    }
}

/// What a pass reads.
#[derive(Debug)]
pub struct StreamPlan<'a> {
    /// The files of the stream directory.
    pub files: Listing<'a>,
    /// The files of the directory of the interleaved sources.
    pub interleaved: Listing<'a>,
    /// The stream files that take part, in the order of their listing.
    pub jobs: Vec<StreamJob>,
}

/// What a [`StreamPlan`] holds.
pub struct PlanView {
    pub files: Seq<FileEntry>,
    pub interleaved: Seq<FileEntry>,
    pub jobs: Seq<JobView>,
}

impl<'a> View for StreamPlan<'a> {
    type V = PlanView;

    open spec fn view(&self) -> PlanView {
        PlanView {
            files: self.files@,
            interleaved: self.interleaved@,
            jobs: job_views(self.jobs@),
        }
    }
}

/// What a pass reads, and the notes after the files were listed. Without stream files there
/// is nothing to read, and the interleaved ones are not looked at.
pub open spec fn plan_of(
    stream: Option<DirEntry>,
    ssif: Option<DirEntry>,
    selection: Option<Seq<Seq<char>>>,
    notes: Option<Seq<Note>>,
) -> (Result<PlanView, Failure>, Option<Seq<Note>>) {
    match stream {
        None => (
            Ok(PlanView { files: Seq::empty(), interleaved: Seq::empty(), jobs: Seq::empty() }),
            notes,
        ),
        Some(dir) => {
            let (files, n1) = listing_step(dir, notes);
            match files {
                Err(f) => (Err(f), n1),
                Ok(files) => {
                    let (found, n2) = optional_listing(ssif, n1);
                    match found {
                        Err(f) => (Err(f), n2),
                        Ok(found) => (
                            Ok(
                                PlanView {
                                    files,
                                    interleaved: found,
                                    jobs: jobs_of(files, found, selection, files.len() as int),
                                },
                            ),
                            n2,
                        ),
                    }
                },
            }
        },
    }
}

/// The last interleaved file with the upper-cased name `key`.
#[verifier::loop_isolation(false)]
fn find_interleaved<'a>(files: &Listing<'a>, key: &str) -> (r: Option<usize>)
    ensures
        match interleaved_at(files@, key@, files@.len() as int) {
            Some(k) => r is Some && r->Some_0 as int == k && k < files@.len(),
            None => r is None,
        },
{
    let list = match files.files {
        Some(list) => list,
        None => {
            return None;
        },
    };
    let mut n: usize = list.len();
    while n > 0
        invariant
            n <= list@.len(),
            interleaved_at(list@, key@, n as int) == interleaved_at(
                list@,
                key@,
                list@.len() as int,
            ),
        decreases n,
    {
        n = n - 1;
        if has_kind(list[n].name.as_str(), BdFileKind::Interleaved) {
            let name = to_ascii_uppercase(list[n].name.as_str());
            if same(name.as_str(), key) {
                return Some(n);
            }
        }
    }
    None
}

/// Whether one of the jobs reads the interleaved file `k`.
fn reads(jobs: &Vec<StreamJob>, k: usize) -> (r: bool)
    ensures
        r == is_read(job_views(jobs@), k as int),
{
    let ghost views = job_views(jobs@);
    let mut j: usize = 0;
    while j < jobs.len()
        invariant
            j <= jobs@.len(),
            views == job_views(jobs@),
            forall|a: int| 0 <= a < j ==> #[trigger] views[a].interleaved != Some(k as int),
        decreases jobs@.len() - j,
    {
        assert(views[j as int] == jobs@[j as int]@);
        if let Some(other) = jobs[j].interleaved {
            if other == k {
                assert(views[j as int].interleaved == Some(k as int));
                return true;
            }
        }
        j = j + 1;
    }
    false
}

/// The length of a file of a list.
fn length_at<'a>(files: &Listing<'a>, k: usize) -> (r: u64)
    requires
        k < files@.len(),
    ensures
        r == files@[k as int].length,
{
    match files.files {
        Some(list) => list[k].length,
        None => 0,
    }
}

/// Plans what a pass reads: every stream file that takes part, through its interleaved
/// source where it has one.
#[verifier::loop_isolation(false)]
pub fn plan_stream_scan<'a>(
    stream: Option<&'a DirEntry>,
    ssif: Option<&'a DirEntry>,
    selection: Option<&Vec<String>>,
    sink: &mut Sink,
) -> (r: Result<StreamPlan<'a>, BdError>)
    ensures
        ({
            let (want, after) = plan_of(
                dir_value(stream),
                dir_value(ssif),
                selection_view(selection),
                old(sink)@,
            );
            &&& final(sink)@ == after
            &&& match want {
                Ok(plan) => r is Ok && r->Ok_0@ == plan,
                Err(f) => r is Err && r->Err_0@ == f,
            }
        }),
{
    let mut jobs: Vec<StreamJob> = Vec::new();
    proof {
        assert(job_views(jobs@) =~= Seq::empty());
    }
    let dir = match stream {
        Some(dir) => dir,
        None => {
            return Ok(
                StreamPlan { files: Listing::none(), interleaved: Listing::none(), jobs },
            );
        },
    };
    let files = list_files(dir, sink)?;
    let found = match ssif {
        Some(d) => list_files(d, sink)?,
        None => Listing::none(),
    };
    let ghost names = selection_view(selection);
    if let Some(list) = files.files {
        let mut i: usize = 0;
        while i < list.len()
            invariant
                i <= list@.len(),
                job_views(jobs@) == jobs_of(list@, found@, names, i as int),
            decreases list@.len() - i,
        {
            let name = to_ascii_uppercase(list[i].name.as_str());
            if has_kind(list[i].name.as_str(), BdFileKind::Stream) && is_selected(
                name.as_str(),
                selection,
            ) {
                let key = sibling(name.as_str(), ".SSIF");
                let interleaved = match find_interleaved(&found, key.as_str()) {
                    Some(k) => if reads(&jobs, k) {
                        None
                    } else {
                        Some(k)
                    },
                    None => None,
                };
                let source_size: u64 = match interleaved {
                    Some(k) => length_at(&found, k),
                    None => list[i].length,
                };
                let job = StreamJob { file: i, name, interleaved, source_size };
                let ghost was = job_views(jobs@);
                let ghost added = job@;
                jobs.push(job);
                proof {
                    assert(added == job_of(list@, i as int, found@, was));
                    assert(job_views(jobs@) =~= was.push(added));
                }
            }
            i = i + 1;
        }
    }
    Ok(StreamPlan { files, interleaved: found, jobs })
}

/// The jobs of a plan are for listed files, and go by the files' upper-cased names.
pub proof fn lemma_jobs_name_listed_files(
    files: Seq<FileEntry>,
    ssif: Seq<FileEntry>,
    selection: Option<Seq<Seq<char>>>,
    n: int,
)
    requires
        n <= files.len(),
    ensures
        forall|j: int|
            #![trigger jobs_of(files, ssif, selection, n)[j]]
            0 <= j < jobs_of(files, ssif, selection, n).len() ==> {
                let job = jobs_of(files, ssif, selection, n)[j];
                &&& 0 <= job.file < n
                &&& job.name == upper(files[job.file].name@)
                &&& job.interleaved is Some ==> 0 <= job.interleaved->Some_0 < ssif.len()
            },
    decreases n,
{
    if n > 0 {
        lemma_jobs_name_listed_files(files, ssif, selection, n - 1);
        let key = stem(upper(files[n - 1].name@)) + ".SSIF"@;
        lemma_interleaved_is_listed(ssif, key, ssif.len() as int);
        let jobs = jobs_of(files, ssif, selection, n - 1);
        assert forall|j: int|
            #![trigger jobs_of(files, ssif, selection, n)[j]]
            0 <= j < jobs_of(files, ssif, selection, n).len() implies {
            let job = jobs_of(files, ssif, selection, n)[j];
            &&& 0 <= job.file < n
            &&& job.name == upper(files[job.file].name@)
            &&& job.interleaved is Some ==> 0 <= job.interleaved->Some_0 < ssif.len()
        } by {
            if j < jobs.len() {
                assert(jobs_of(files, ssif, selection, n)[j] == jobs[j]);
            }
        }
    }
}

proof fn lemma_interleaved_is_listed(files: Seq<FileEntry>, key: Seq<char>, n: int)
    ensures
        interleaved_at(files, key, n) is Some ==> 0 <= interleaved_at(files, key, n)->Some_0 < n,
    decreases n,
{
    if n > 0 {
        lemma_interleaved_is_listed(files, key, n - 1);
    }
}

// ---- between the passes ----

/// A playlist after the quick pass: it presents the streams of its reference clip, with
/// what the pass has found, and nothing is measured of its clips. One whose clips cannot be
/// gathered presents what it did.
pub open spec fn prepared(
    p: PlaylistView,
    clip_files: Seq<(Seq<char>, ClipFileView)>,
    stream_files: Seq<(Seq<char>, u64)>,
    quick: Seq<(Seq<char>, FileView)>,
) -> PlaylistView {
    cleared(
        match metas_of(p.clips, clip_files, stream_files, quick, p.clips.len() as int) {
            Ok(metas) => resolved(p, metas),
            Err(_) => p,
        },
    )
}

/// A playlist after the full pass: the graphics that it presents have the detail that the
/// pass has found in its reference clip's stream file.
pub open spec fn refreshed(
    p: PlaylistView,
    clip_files: Seq<(Seq<char>, ClipFileView)>,
    stream_files: Seq<(Seq<char>, u64)>,
    full: Seq<(Seq<char>, FileView)>,
) -> PlaylistView {
    match metas_of(p.clips, clip_files, stream_files, full, p.clips.len() as int) {
        Ok(metas) => match selected(metas) {
            Some(reference) => match reference.scanned {
                Some(file) => PlaylistView {
                    streams: merged_map(p.streams, file.streams, true),
                    ..p
                },
                None => p,
            },
            None => p,
        },
        Err(_) => p,
    }
}

/// Has every playlist take over what the quick pass has found, before the full pass
/// measures.
pub fn prepare_playlists(
    playlists: &mut Vec<TsPlaylistFile>,
    clip_files: &NameTable<TsStreamClipFile>,
    stream_files: &NameTable<u64>,
    quick: &NameTable<TsStreamFile>,
)
    ensures
        playlist_views(final(playlists)@) == playlist_views(old(playlists)@).map_values(
            |p: PlaylistView| prepared(p, table_views(clip_files@), stream_files@, table_views(quick@)),
        ),
{
    let ghost was = playlist_views(playlists@);
    let n: usize = playlists.len();
    let mut i: usize = 0;
    while i < n
        invariant
            i <= n,
            n == playlists@.len(),
            n == was.len(),
            forall|k: int|
                0 <= k < i ==> cleared(#[trigger] playlist_views(playlists@)[k]) == prepared(
                    was[k],
                    table_views(clip_files@),
                    stream_files@,
                    table_views(quick@),
                ),
            forall|k: int| i <= k < n ==> #[trigger] playlist_views(playlists@)[k] == was[k],
        decreases n - i,
    {
        let ghost now = playlist_views(playlists@);
        assert(now[i as int] == was[i as int]);
        if let Ok(metas) = collect_clip_metas(&playlists[i], clip_files, stream_files, quick) {
            resolve_playlist_streams(&mut playlists[i], &metas);
        }
        proof {
            assert(playlist_views(playlists@) =~= now.update(
                i as int,
                playlist_views(playlists@)[i as int],
            ));
        }
        i = i + 1;
    }
    let ghost resolved_all = playlist_views(playlists@);
    clear_measurements(playlists);
    proof {
        assert forall|k: int| 0 <= k < n implies playlist_views(playlists@)[k] == prepared(
            was[k],
            table_views(clip_files@),
            stream_files@,
            table_views(quick@),
        ) by {
            assert(playlist_views(playlists@)[k] == cleared(resolved_all[k]));
        }
        assert(playlist_views(playlists@) =~= was.map_values(
            |p: PlaylistView| prepared(p, table_views(clip_files@), stream_files@, table_views(quick@)),
        ));
    }
}

/// Has every playlist take over the graphics detail that the full pass has found.
pub fn refresh_playlists(
    playlists: &mut Vec<TsPlaylistFile>,
    clip_files: &NameTable<TsStreamClipFile>,
    stream_files: &NameTable<u64>,
    full: &NameTable<TsStreamFile>,
)
    ensures
        playlist_views(final(playlists)@) == playlist_views(old(playlists)@).map_values(
            |p: PlaylistView| refreshed(p, table_views(clip_files@), stream_files@, table_views(full@)),
        ),
{
    let ghost was = playlist_views(playlists@);
    let n: usize = playlists.len();
    let mut i: usize = 0;
    while i < n
        invariant
            i <= n,
            n == playlists@.len(),
            n == was.len(),
            forall|k: int|
                0 <= k < i ==> #[trigger] playlist_views(playlists@)[k] == refreshed(
                    was[k],
                    table_views(clip_files@),
                    stream_files@,
                    table_views(full@),
                ),
            forall|k: int| i <= k < n ==> #[trigger] playlist_views(playlists@)[k] == was[k],
        decreases n - i,
    {
        let ghost now = playlist_views(playlists@);
        assert(now[i as int] == was[i as int]);
        if let Ok(metas) = collect_clip_metas(&playlists[i], clip_files, stream_files, full) {
            if let Some(at) = select_reference(&metas) {
                if let Some(file) = metas[at].scanned {
                    remerge_graphics_detail(&mut playlists[i], &file.streams);
                }
            }
        }
        proof {
            assert(playlist_views(playlists@) =~= now.update(
                i as int,
                playlist_views(playlists@)[i as int],
            ));
        }
        i = i + 1;
    }
    proof {
        assert(playlist_views(playlists@) =~= was.map_values(
            |p: PlaylistView| refreshed(p, table_views(clip_files@), stream_files@, table_views(full@)),
        ));
    }
}

} // verus!
