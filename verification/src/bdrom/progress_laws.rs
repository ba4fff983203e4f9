//! What holds of everything that an observer is told of a scan.

use vstd::prelude::*;

use super::catalog::{opened_at, OpenedView};
use super::disc::{capped, ScanMode};
use super::discovery::{is_kind, sizes_of, BdFileKind, DirEntry, FileEntry};
use super::m2ts::{blank_file, AccessUnitScan, FileView};
use super::measure::{
    measured_by, one_scan, one_told, pass_of, pass_over, pass_step, was_stopped, PassView,
    StreamStore,
};
use super::mpls::PlaylistView;
use super::open::{layout_of, listed, LayoutView};
use super::passes::{
    advanced, clamped, interleaved_at, is_read, job_of, jobs_of, lemma_pass_bytes_nonneg,
    pass_bytes, plan_of, prepared, source_size, takes_part, telling, Event, Heard, JobView,
    PlanView, Progress,
};
use super::present::StreamText;
use super::resolve::stem;
use super::rom::{disc_of, ScanOutcome};
use super::scan::{blank_scan, joined, reading_told, scanned, AccessUnits, Scan};
use crate::error::{Failure, Note};
use crate::names::{distinct, find, find_from, lemma_put_find, put, put_from};
use crate::text::upper;

verus! {

// ---- one event after another ----

/// Whether what an observer has been told since `before` is in order: every event is of one
/// of the files, gives the same total and a count no higher than that, and the count never
/// falls. The last event gives the count that the pass has come to.
pub open spec fn in_order(before: Seq<Event>, h: Heard, files: spec_fn(Seq<char>) -> bool) -> bool {
    &&& before.is_prefix_of(h.told)
    &&& h.progress.done <= h.progress.total
    &&& forall|k: int|
        #![trigger h.told[k]]
        before.len() <= k < h.told.len() ==> {
            &&& files(h.told[k].file)
            &&& h.told[k].total == h.progress.total
            &&& h.told[k].done <= h.progress.done
        }
    &&& forall|k: int, l: int|
        #![trigger h.told[k], h.told[l]]
        before.len() <= k <= l < h.told.len() ==> h.told[k].done <= h.told[l].done
    &&& h.told.len() > before.len() ==> h.told.last().done == h.progress.done
}

/// Whether a pass that was at `from` has gone on to `to`: not back, and over the same total.
pub open spec fn goes_on(from: Progress, to: Progress) -> bool {
    &&& to.observed == from.observed
    &&& to.total == from.total
    &&& from.done <= to.done
}

/// Whether a pass that was at `h` has gone on to `g` in order: an observed one with what it
/// has told, any other without a word.
spec fn sound(h: Heard, g: Heard, before: Seq<Event>, files: spec_fn(Seq<char>) -> bool) -> bool {
    &&& goes_on(h.progress, g.progress)
    &&& in_order(before, g, files)
    &&& !h.progress.observed ==> g.told == h.told
    &&& h.told.len() <= g.told.len()
}

proof fn lemma_telling(
    h: Heard,
    p: Progress,
    name: Seq<char>,
    before: Seq<Event>,
    files: spec_fn(Seq<char>) -> bool,
)
    requires
        in_order(before, h, files),
        h.progress.observed || h.told == before,
        goes_on(h.progress, p),
        p.done <= p.total,
        files(name),
    ensures
        sound(h, telling(h, p, name), before, files),
        p.observed ==> telling(h, p, name).told.len() == h.told.len() + 1,
        telling(h, p, name).progress == p,
{
    let g = telling(h, p, name);
    if p.observed {
        assert(before.is_prefix_of(g.told)) by {
            assert(g.told.subrange(0, before.len() as int) =~= h.told.subrange(
                0,
                before.len() as int,
            ));
        }
        assert forall|k: int, l: int|
            #![trigger g.told[k], g.told[l]]
            before.len() <= k <= l < g.told.len() implies g.told[k].done <= g.told[l].done by {
            if l < h.told.len() {
                assert(g.told[k] == h.told[k] && g.told[l] == h.told[l]);
            } else if k < h.told.len() {
                assert(g.told[k] == h.told[k]);
            }
        }
    }
}

proof fn lemma_reading_told(
    s: Scan,
    chunks: Seq<Seq<u8>>,
    failure: Option<Failure>,
    h: Heard,
    name: Seq<char>,
    full: bool,
    analyse: spec_fn(FileView, u16) -> Option<AccessUnitScan>,
    before: Seq<Event>,
    files: spec_fn(Seq<char>) -> bool,
)
    requires
        in_order(before, h, files),
        h.progress.observed || h.told == before,
        files(name),
    ensures
        ({
            let g = reading_told(s, chunks, failure, h, name, full, analyse);
            &&& sound(h, g, before, files)
            &&& g.progress.done <= clamped(
                h.progress.done + joined(chunks).len(),
                h.progress.total,
            )
        }),
    decreases chunks.len(),
{
    lemma_telling(h, h.progress, name, before, files);
    let g = telling(h, h.progress, name);
    if chunks.len() == 0 {
        lemma_telling(g, advanced(h.progress, 0), name, before, files);
    } else {
        let p = advanced(h.progress, chunks[0].len() as int);
        lemma_telling(g, p, name, before, files);
        let after = telling(g, p, name);
        let next = scanned(s, chunks[0], full, analyse);
        if !next.finished {
            lemma_reading_told(
                next,
                chunks.drop_first(),
                failure,
                after,
                name,
                full,
                analyse,
                before,
                files,
            );
        }
    }
}

/// The source of a job: what opening it gives, and its bytes.
pub open spec fn job_content<S: StreamStore>(
    store: S,
    plan: PlanView,
    job: JobView,
    full: bool,
) -> Result<(Seq<Seq<u8>>, Option<Failure>), Failure> {
    match job.interleaved {
        Some(k) => store.content(plan.interleaved[k], true, full),
        None => store.content(plan.files[job.file], false, full),
    }
}

/// The bytes that there are in the source of a job.
pub open spec fn job_length<S: StreamStore>(
    store: S,
    plan: PlanView,
    job: JobView,
    full: bool,
) -> int {
    match job_content(store, plan, job, full) {
        Ok((chunks, _)) => joined(chunks).len() as int,
        Err(_) => 0,
    }
}

proof fn lemma_step_told<A: AccessUnits, S: StreamStore>(
    units: A,
    store: S,
    plan: PlanView,
    job: JobView,
    v: PassView,
    keep_partial: bool,
    full: bool,
    before: Seq<Event>,
    files: spec_fn(Seq<char>) -> bool,
)
    requires
        in_order(before, v.heard, files),
        v.heard.progress.observed || v.heard.told == before,
        files(job.name),
    ensures
        ({
            let w = pass_step(units, store, plan, job, v, keep_partial, full);
            let old = v.heard.progress;
            &&& sound(v.heard, w.heard, before, files)
            &&& w.failure is None && v.heard.progress.observed ==> w.heard.told.len()
                > v.heard.told.len()
            &&& w.failure is None ==> w.heard.progress.done >= clamped(
                old.done + job.source_size,
                old.total,
            )
            &&& v.failure is None && w.failure != Some(Failure::ScanCancelled) && job_length(
                store,
                plan,
                job,
                full,
            ) <= job.source_size ==> w.heard.progress.done == clamped(
                old.done + job.source_size,
                old.total,
            )
        }),
{
    let file = plan.files[job.file];
    let interleaved = match job.interleaved {
        Some(k) => Some(plan.interleaved[k]),
        None => None,
    };
    let (content, source) = match interleaved {
        Some(s) => (store.content(s, true, full), Some(upper(s.name@))),
        None => (store.content(file, false, full), None),
    };
    if let Ok((chunks, failure)) = content {
        let blank = blank_file(upper(file.name@), source);
        if v.playlists.len() > 0 {
            lemma_reading_told(
                blank_scan(blank, v.playlists),
                chunks,
                failure,
                v.heard,
                job.name,
                full,
                super::scan::analysis(units, full),
                before,
                files,
            );
        }
    }
    let h = one_told(units, store, file, interleaved, v.playlists, full, v.heard, job.name);
    assert(sound(v.heard, h, before, files));
    let (scan, _) = one_scan(units, store, file, interleaved, v.playlists, full);
    if !was_stopped(scan) {
        let over = super::passes::file_over(
            h.progress,
            capped(v.heard.progress.done + job.source_size),
        );
        lemma_telling(h, over, job.name, before, files);
    }
}

/// The bytes of the sources of the first `n` jobs.
pub open spec fn job_bytes(jobs: Seq<JobView>, n: int) -> int
    decreases n,
{
    if n <= 0 {
        0
    } else {
        job_bytes(jobs, n - 1) + jobs[n - 1].source_size
    }
}

proof fn lemma_pass_told<A: AccessUnits, S: StreamStore>(
    units: A,
    store: S,
    plan: PlanView,
    n: int,
    start: PassView,
    keep_partial: bool,
    full: bool,
    files: spec_fn(Seq<char>) -> bool,
)
    requires
        0 <= n <= plan.jobs.len(),
        start.heard.progress.done <= start.heard.progress.total,
        start.failure is None,
        forall|k: int| 0 <= k < plan.jobs.len() ==> files((#[trigger] plan.jobs[k]).name),
    ensures
        ({
            let v = pass_over(units, store, plan, n, start, keep_partial, full);
            let from = start.heard.progress;
            &&& job_bytes(plan.jobs, n) >= 0
            &&& sound(start.heard, v.heard, start.heard.told, files)
            &&& v.failure is None ==> v.heard.progress.done >= clamped(
                from.done + job_bytes(plan.jobs, n),
                from.total,
            )
            &&& v.failure is None && from.observed && n > 0 ==> v.heard.told.len()
                > start.heard.told.len()
        }),
    decreases n,
{
    let told = start.heard.told;
    if n == 0 {
        assert(told.is_prefix_of(told)) by {
            assert(told.subrange(0, told.len() as int) =~= told);
        }
    } else {
        lemma_pass_told(units, store, plan, n - 1, start, keep_partial, full, files);
        let v = pass_over(units, store, plan, n - 1, start, keep_partial, full);
        if v.failure is None {
            lemma_step_told(
                units,
                store,
                plan,
                plan.jobs[n - 1],
                v,
                keep_partial,
                full,
                told,
                files,
            );
        }
    }
}

/// A file that is over counts as a whole, whether its scan has read all of it, a part, or
/// has failed at the first read or before it. Only a scan that was asked to stop leaves the
/// count where it was.
pub proof fn lemma_every_file_counts_whole<A: AccessUnits, S: StreamStore>(
    units: A,
    store: S,
    plan: PlanView,
    job: JobView,
    v: PassView,
    keep_partial: bool,
    full: bool,
)
    requires
        v.failure is None,
        v.heard.progress.done <= v.heard.progress.total,
        job_length(store, plan, job, full) <= job.source_size,
        pass_step(units, store, plan, job, v, keep_partial, full).failure != Some(
            Failure::ScanCancelled,
        ),
    ensures
        pass_step(units, store, plan, job, v, keep_partial, full).heard.progress.done == clamped(
            v.heard.progress.done + job.source_size,
            v.heard.progress.total,
        ),
{
    let told = v.heard.told;
    assert(told.is_prefix_of(told)) by {
        assert(told.subrange(0, told.len() as int) =~= told);
    }
    lemma_step_told(
        units,
        store,
        plan,
        job,
        v,
        keep_partial,
        full,
        told,
        |name: Seq<char>| true,
    );
}

/// A stop that was asked for before the first read ends the pass there: nothing is noted,
/// nobody is told anything, the count stays, and the playlists are as they were.
pub proof fn lemma_a_stop_beforehand_changes_nothing<A: AccessUnits, S: StreamStore>(
    units: A,
    store: S,
    stream: Option<DirEntry>,
    ssif: Option<DirEntry>,
    selection: Option<Seq<Seq<char>>>,
    playlists: Seq<PlaylistView>,
    notes: Option<Seq<Note>>,
    keep_partial: bool,
    full: bool,
    heard: Heard,
)
    requires
        playlists.len() > 0,
        plan_of(stream, ssif, selection, notes).0 is Ok,
        ({
            let plan = plan_of(stream, ssif, selection, notes).0->Ok_0;
            &&& plan.jobs.len() > 0
            &&& job_content(store, plan, plan.jobs[0], full) == Ok::<
                (Seq<Seq<u8>>, Option<Failure>),
                Failure,
            >((Seq::empty(), Some(Failure::ScanCancelled)))
        }),
    ensures
        pass_of(
            units,
            store,
            stream,
            ssif,
            selection,
            playlists,
            notes,
            keep_partial,
            full,
            heard,
        ) == (PassView {
            playlists,
            notes: plan_of(stream, ssif, selection, notes).1,
            files: Seq::empty(),
            failure: Some(Failure::ScanCancelled),
            heard,
        }),
{
    let (plan, after) = plan_of(stream, ssif, selection, notes);
    let plan = plan->Ok_0;
    let start = PassView { playlists, notes: after, files: Seq::empty(), failure: None, heard };
    assert(joined(Seq::<Seq<u8>>::empty()) == Seq::<u8>::empty());
    assert(pass_over(units, store, plan, 0, start, keep_partial, full) == start);
    assert(pass_over(units, store, plan, 1, start, keep_partial, full) == pass_step(
        units,
        store,
        plan,
        plan.jobs[0],
        start,
        keep_partial,
        full,
    ));
    lemma_ended_pass_stays(
        units,
        store,
        plan,
        plan.jobs.len() as int,
        start,
        keep_partial,
        full,
    );
}

/// A stop that was asked for before a scan reads its first packet ends the scan there, with
/// no more notes than the listings have given, and its observer is told nothing.
pub proof fn lemma_a_stop_beforehand_ends_the_scan<T: StreamText, A: AccessUnits, S: StreamStore>(
    text: T,
    units: A,
    store: S,
    root: DirEntry,
    mode: ScanMode,
    keep_partial: bool,
    selection: Option<Seq<Seq<char>>>,
    notes: Option<Seq<Note>>,
    told: Seq<Event>,
)
    requires
        !(mode is Metadata),
        layout_of(root, notes).0 is Ok,
        ({
            let (layout, located) = layout_of(root, notes);
            let l = layout->Ok_0;
            let (opened, after) = opened_at(root, l, located);
            let plan = plan_of(l.stream, l.ssif, selection, after).0;
            &&& opened is Ok
            &&& opened->Ok_0.playlists.len() > 0
            &&& plan is Ok
            &&& plan->Ok_0.jobs.len() > 0
            &&& job_content(store, plan->Ok_0, plan->Ok_0.jobs[0], false) == Ok::<
                (Seq<Seq<u8>>, Option<Failure>),
                Failure,
            >((Seq::empty(), Some(Failure::ScanCancelled)))
        }),
    ensures
        ({
            let (layout, located) = layout_of(root, notes);
            let l = layout->Ok_0;
            let after = opened_at(root, l, located).1;
            disc_of(text, units, store, root, mode, keep_partial, selection, notes, told) == (
            ScanOutcome {
                disc: Err(Failure::ScanCancelled),
                notes: plan_of(l.stream, l.ssif, selection, after).1,
                told,
            })
        }),
{
    let (layout, located) = layout_of(root, notes);
    let l = layout->Ok_0;
    let (opened, after) = opened_at(root, l, located);
    let o = opened->Ok_0;
    let observed = Progress { observed: true, done: 0, total: observed_total(o, selection) };
    let silent = Progress { observed: false, done: 0, total: 0 };
    lemma_a_stop_beforehand_changes_nothing(
        units,
        store,
        l.stream,
        l.ssif,
        selection,
        o.playlists,
        after,
        keep_partial,
        false,
        Heard {
            progress: if mode is Full {
                silent
            } else {
                observed
            },
            told,
        },
    );
}

proof fn lemma_ended_pass_stays<A: AccessUnits, S: StreamStore>(
    units: A,
    store: S,
    plan: PlanView,
    n: int,
    start: PassView,
    keep_partial: bool,
    full: bool,
)
    requires
        n >= 1,
        pass_over(units, store, plan, 1, start, keep_partial, full).failure is Some,
    ensures
        pass_over(units, store, plan, n, start, keep_partial, full) == pass_over(
            units,
            store,
            plan,
            1,
            start,
            keep_partial,
            full,
        ),
    decreases n,
{
    if n > 1 {
        lemma_ended_pass_stays(units, store, plan, n - 1, start, keep_partial, full);
    }
}

// ---- the bytes of a pass ----

/// Whether a listed file is a stream file that takes part in the scan.
pub open spec fn is_scanned(file: FileEntry, selection: Option<Seq<Seq<char>>>) -> bool {
    is_kind(file.name@, BdFileKind::Stream) && takes_part(upper(file.name@), selection)
}

/// Whether no two stream files of different names have one interleaved source.
pub open spec fn sources_apart(
    files: Seq<FileEntry>,
    ssif: Seq<FileEntry>,
    selection: Option<Seq<Seq<char>>>,
) -> bool {
    forall|i: int, j: int|
        #![trigger files[i], files[j]]
        0 <= i < j < files.len() && is_scanned(files[i], selection) && is_scanned(
            files[j],
            selection,
        ) && stem(upper(files[i].name@)) == stem(upper(files[j].name@)) && interleaved_at(
            ssif,
            stem(upper(files[j].name@)) + ".SSIF"@,
            ssif.len() as int,
        ) is Some ==> upper(files[i].name@) == upper(files[j].name@)
}

proof fn lemma_sizes_distinct(files: Seq<FileEntry>, kind: BdFileKind, n: int)
    ensures
        distinct(sizes_of(files, kind, n)),
    decreases n,
{
    if n > 0 {
        lemma_sizes_distinct(files, kind, n - 1);
        let name = upper(files[n - 1].name@);
        lemma_put_find(sizes_of(files, kind, n - 1), name, files[n - 1].length, name);
    }
}

proof fn lemma_sizes_name_files(files: Seq<FileEntry>, kind: BdFileKind, n: int, i: int)
    requires
        0 <= i < n,
        is_kind(files[i].name@, kind),
    ensures
        find(sizes_of(files, kind, n), upper(files[i].name@)) is Some,
    decreases n,
{
    let name = upper(files[i].name@);
    lemma_sizes_distinct(files, kind, n - 1);
    if is_kind(files[n - 1].name@, kind) {
        lemma_put_find(
            sizes_of(files, kind, n - 1),
            upper(files[n - 1].name@),
            files[n - 1].length,
            name,
        );
    }
    if i < n - 1 {
        lemma_sizes_name_files(files, kind, n - 1, i);
    }
}

proof fn lemma_interleaved_size(ssif: Seq<FileEntry>, key: Seq<char>, n: int)
    ensures
        find(sizes_of(ssif, BdFileKind::Interleaved, n), key) == (match interleaved_at(
            ssif,
            key,
            n,
        ) {
            Some(k) => Some(ssif[k].length),
            None => None,
        }),
        match interleaved_at(ssif, key, n) {
            Some(k) => 0 <= k < n && upper(ssif[k].name@) == key,
            None => true,
        },
    decreases n,
{
    if n > 0 {
        lemma_interleaved_size(ssif, key, n - 1);
        lemma_sizes_distinct(ssif, BdFileKind::Interleaved, n - 1);
        if is_kind(ssif[n - 1].name@, BdFileKind::Interleaved) {
            lemma_put_find(
                sizes_of(ssif, BdFileKind::Interleaved, n - 1),
                upper(ssif[n - 1].name@),
                ssif[n - 1].length,
                key,
            );
        }
    }
}

proof fn lemma_put_shape(t: Seq<(Seq<char>, u64)>, name: Seq<char>, v: u64, i: int)
    requires
        0 <= i <= t.len(),
    ensures
        ({
            let u = put_from(t, name, v, i);
            ||| u == t.push((name, v)) && find_from(t, name, i) is None
            ||| exists|p: int|
                0 <= p < t.len() && #[trigger] t[p].0 == name && u == t.update(p, (name, v))
        }),
    decreases t.len() - i,
{
    if i < t.len() && t[i].0 != name {
        lemma_put_shape(t, name, v, i + 1);
    }
}

/// What one entry of the table of stream files adds to the bytes of a pass.
spec fn share(
    e: (Seq<char>, u64),
    interleaved: Seq<(Seq<char>, u64)>,
    selection: Option<Seq<Seq<char>>>,
) -> int {
    if takes_part(e.0, selection) {
        source_size(e.0, e.1, interleaved) as int
    } else {
        0
    }
}

proof fn lemma_bytes_of_prefix(
    t: Seq<(Seq<char>, u64)>,
    u: Seq<(Seq<char>, u64)>,
    interleaved: Seq<(Seq<char>, u64)>,
    selection: Option<Seq<Seq<char>>>,
    n: int,
)
    requires
        forall|k: int| 0 <= k < n ==> t[k] == u[k],
    ensures
        pass_bytes(t, interleaved, selection, n) == pass_bytes(u, interleaved, selection, n),
    decreases n,
{
    if n > 0 {
        lemma_bytes_of_prefix(t, u, interleaved, selection, n - 1);
        assert(t[n - 1] == u[n - 1]);
    }
}

proof fn lemma_bytes_of_update(
    t: Seq<(Seq<char>, u64)>,
    p: int,
    e: (Seq<char>, u64),
    interleaved: Seq<(Seq<char>, u64)>,
    selection: Option<Seq<Seq<char>>>,
    n: int,
)
    requires
        0 <= p < n <= t.len(),
    ensures
        pass_bytes(t.update(p, e), interleaved, selection, n) == pass_bytes(
            t,
            interleaved,
            selection,
            n,
        ) - share(t[p], interleaved, selection) + share(e, interleaved, selection),
    decreases n,
{
    let u = t.update(p, e);
    if p == n - 1 {
        lemma_bytes_of_prefix(t, u, interleaved, selection, n - 1);
    } else {
        lemma_bytes_of_update(t, p, e, interleaved, selection, n - 1);
        assert(u[n - 1] == t[n - 1]);
    }
}

/// What putting a size into the table of stream files does to the bytes of a pass.
proof fn lemma_bytes_of_put(
    t: Seq<(Seq<char>, u64)>,
    name: Seq<char>,
    v: u64,
    interleaved: Seq<(Seq<char>, u64)>,
    selection: Option<Seq<Seq<char>>>,
)
    ensures
        ({
            let u = put(t, name, v);
            let was = pass_bytes(t, interleaved, selection, t.len() as int);
            let now = pass_bytes(u, interleaved, selection, u.len() as int);
            &&& now <= was + share((name, v), interleaved, selection)
            &&& find(t, name) is Some && find(interleaved, stem(name) + ".SSIF"@) is Some ==> now
                <= was
        }),
{
    let u = put(t, name, v);
    let n = t.len() as int;
    lemma_put_shape(t, name, v, 0);
    if u == t.push((name, v)) && find(t, name) is None {
        lemma_bytes_of_prefix(t, u, interleaved, selection, n);
    } else {
        let p = choose|p: int|
            0 <= p < t.len() && #[trigger] t[p].0 == name && u == t.update(p, (name, v));
        lemma_bytes_of_update(t, p, (name, v), interleaved, selection, n);
    }
}

/// What the jobs of a plan say of their sources.
proof fn lemma_jobs_say_their_sources(
    files: Seq<FileEntry>,
    ssif: Seq<FileEntry>,
    selection: Option<Seq<Seq<char>>>,
    n: int,
)
    requires
        n <= files.len(),
    ensures
        forall|j: int|
            #![trigger jobs_of(files, ssif, selection, n)[j]]
            0 <= j < jobs_of(files, ssif, selection, n).len() ==> {
                let job = jobs_of(files, ssif, selection, n)[j];
                &&& 0 <= job.file < n
                &&& is_scanned(files[job.file], selection)
                &&& job.name == upper(files[job.file].name@)
                &&& job.interleaved is Some ==> interleaved_at(
                    ssif,
                    stem(job.name) + ".SSIF"@,
                    ssif.len() as int,
                ) == job.interleaved
            },
    decreases n,
{
    if n > 0 {
        lemma_jobs_say_their_sources(files, ssif, selection, n - 1);
        let jobs = jobs_of(files, ssif, selection, n - 1);
        assert forall|j: int|
            #![trigger jobs_of(files, ssif, selection, n)[j]]
            0 <= j < jobs_of(files, ssif, selection, n).len() implies {
            let job = jobs_of(files, ssif, selection, n)[j];
            &&& 0 <= job.file < n
            &&& is_scanned(files[job.file], selection)
            &&& job.name == upper(files[job.file].name@)
            &&& job.interleaved is Some ==> interleaved_at(
                ssif,
                stem(job.name) + ".SSIF"@,
                ssif.len() as int,
            ) == job.interleaved
        } by {
            if j < jobs.len() {
                assert(jobs_of(files, ssif, selection, n)[j] == jobs[j]);
            }
        }
    }
}

proof fn lemma_jobs_of_prefix(a: Seq<JobView>, b: Seq<JobView>, n: int)
    requires
        forall|k: int| 0 <= k < n ==> a[k] == b[k],
    ensures
        job_bytes(a, n) == job_bytes(b, n),
    decreases n,
{
    if n > 0 {
        lemma_jobs_of_prefix(a, b, n - 1);
        assert(a[n - 1] == b[n - 1]);
    }
}

/// The sources of the jobs of a pass hold all the bytes that the tables of files give it.
proof fn lemma_jobs_cover_the_bytes(
    files: Seq<FileEntry>,
    ssif: Seq<FileEntry>,
    selection: Option<Seq<Seq<char>>>,
    n: int,
)
    requires
        0 <= n <= files.len(),
        sources_apart(files, ssif, selection),
    ensures
        ({
            let t = sizes_of(files, BdFileKind::Stream, n);
            let interleaved = sizes_of(ssif, BdFileKind::Interleaved, ssif.len() as int);
            let jobs = jobs_of(files, ssif, selection, n);
            pass_bytes(t, interleaved, selection, t.len() as int) <= job_bytes(
                jobs,
                jobs.len() as int,
            )
        }),
    decreases n,
{
    if n > 0 {
        lemma_jobs_cover_the_bytes(files, ssif, selection, n - 1);
        let interleaved = sizes_of(ssif, BdFileKind::Interleaved, ssif.len() as int);
        let t = sizes_of(files, BdFileKind::Stream, n - 1);
        let jobs = jobs_of(files, ssif, selection, n - 1);
        let all = jobs_of(files, ssif, selection, n);
        let file = files[n - 1];
        let name = upper(file.name@);
        let key = stem(name) + ".SSIF"@;
        lemma_interleaved_size(ssif, key, ssif.len() as int);
        if is_kind(file.name@, BdFileKind::Stream) {
            lemma_bytes_of_put(t, name, file.length, interleaved, selection);
            if takes_part(name, selection) {
                let job = job_of(files, n - 1, ssif, jobs);
                assert(all == jobs.push(job));
                lemma_jobs_of_prefix(jobs, all, jobs.len() as int);
                assert(job_bytes(all, all.len() as int) == job_bytes(jobs, jobs.len() as int)
                    + job.source_size);
                match interleaved_at(ssif, key, ssif.len() as int) {
                    Some(k) => {
                        if is_read(jobs, k) {
                            let j = choose|j: int|
                                0 <= j < jobs.len() && #[trigger] jobs[j].interleaved == Some(k);
                            lemma_jobs_say_their_sources(files, ssif, selection, n - 1);
                            let other = jobs[j];
                            lemma_interleaved_size(
                                ssif,
                                stem(other.name) + ".SSIF"@,
                                ssif.len() as int,
                            );
                            assert(stem(other.name) + ".SSIF"@ == key);
                            assert(stem(other.name) == stem(name)) by {
                                let a = stem(other.name);
                                let b = stem(name);
                                assert(a.len() == b.len());
                                assert(a =~= (a + ".SSIF"@).subrange(0, a.len() as int));
                                assert(b =~= (b + ".SSIF"@).subrange(0, b.len() as int));
                            }
                            assert(is_scanned(files[other.file], selection));
                            assert(is_scanned(files[n - 1], selection));
                            assert(upper(files[other.file].name@) == name);
                            lemma_sizes_name_files(files, BdFileKind::Stream, n - 1, other.file);
                        }
                    },
                    None => {},
                }
            }
        }
    }
}

// ---- the whole scan ----

/// Whether a name is that of a stream file of the directory that takes part in the scan.
pub open spec fn names_scanned(
    stream: Option<DirEntry>,
    selection: Option<Seq<Seq<char>>>,
    name: Seq<char>,
) -> bool {
    match stream {
        Some(dir) => match listed(dir) {
            Ok(files) => exists|k: int|
                0 <= k < files.len() && is_scanned(#[trigger] files[k], selection) && upper(
                    files[k].name@,
                ) == name,
            Err(_) => false,
        },
        None => false,
    }
}

/// The files of a directory that may not be there, or may not be listed.
pub open spec fn files_of(dir: Option<DirEntry>) -> Seq<FileEntry> {
    match dir {
        Some(d) => match listed(d) {
            Ok(files) => files,
            Err(_) => Seq::empty(),
        },
        None => Seq::empty(),
    }
}

/// The bytes that the observed pass of a scan has to read, by the tables of a disc's files.
pub open spec fn observed_total(o: OpenedView, selection: Option<Seq<Seq<char>>>) -> u64 {
    capped(
        pass_bytes(
            o.maps.stream_files,
            o.maps.interleaved_files,
            selection,
            o.maps.stream_files.len() as int,
        ),
    )
}

/// Whether a stream file of the directory takes part in the scan.
pub open spec fn scans_something(
    stream: Option<DirEntry>,
    selection: Option<Seq<Seq<char>>>,
) -> bool {
    exists|name: Seq<char>| names_scanned(stream, selection, name)
}

proof fn lemma_plan_names(
    stream: Option<DirEntry>,
    ssif: Option<DirEntry>,
    selection: Option<Seq<Seq<char>>>,
    notes: Option<Seq<Note>>,
)
    ensures
        match plan_of(stream, ssif, selection, notes).0 {
            Ok(plan) => {
                &&& forall|k: int|
                    0 <= k < plan.jobs.len() ==> names_scanned(
                        stream,
                        selection,
                        (#[trigger] plan.jobs[k]).name,
                    )
                &&& scans_something(stream, selection) ==> plan.jobs.len() > 0
            },
            Err(_) => true,
        },
{
    if let Ok(plan) = plan_of(stream, ssif, selection, notes).0 {
        if stream is Some {
            lemma_jobs_say_their_sources(
                plan.files,
                plan.interleaved,
                selection,
                plan.files.len() as int,
            );
            if scans_something(stream, selection) {
                let name = choose|name: Seq<char>| names_scanned(stream, selection, name);
                let files = listed(stream->Some_0)->Ok_0;
                let k = choose|k: int|
                    0 <= k < files.len() && is_scanned(#[trigger] files[k], selection) && upper(
                        files[k].name@,
                    ) == name;
                lemma_some_job(files, plan.interleaved, selection, files.len() as int, k);
            }
        }
    }
}

proof fn lemma_some_job(
    files: Seq<FileEntry>,
    ssif: Seq<FileEntry>,
    selection: Option<Seq<Seq<char>>>,
    n: int,
    k: int,
)
    requires
        0 <= k < n <= files.len(),
        is_scanned(files[k], selection),
    ensures
        jobs_of(files, ssif, selection, n).len() > 0,
    decreases n,
{
    if k < n - 1 {
        lemma_some_job(files, ssif, selection, n - 1, k);
    }
}

/// Whether what an observer has been told since `before` is what a scan of some stream files
/// over `total` bytes tells it: every event is of one of the files, gives the total and a
/// count no higher than that, and the count never falls.
pub open spec fn tells(
    before: Seq<Event>,
    after: Seq<Event>,
    total: u64,
    files: spec_fn(Seq<char>) -> bool,
) -> bool {
    &&& before.is_prefix_of(after)
    &&& forall|k: int|
        #![trigger after[k]]
        before.len() <= k < after.len() ==> files(after[k].file) && after[k].total == total
            && after[k].done <= total
    &&& forall|k: int, l: int|
        #![trigger after[k], after[l]]
        before.len() <= k <= l < after.len() ==> after[k].done <= after[l].done
}

proof fn lemma_pass_tells<A: AccessUnits, S: StreamStore>(
    units: A,
    store: S,
    stream: Option<DirEntry>,
    ssif: Option<DirEntry>,
    selection: Option<Seq<Seq<char>>>,
    playlists: Seq<PlaylistView>,
    notes: Option<Seq<Note>>,
    keep_partial: bool,
    full: bool,
    heard: Heard,
)
    requires
        heard.progress.done <= heard.progress.total,
    ensures
        ({
            let v = pass_of(
                units,
                store,
                stream,
                ssif,
                selection,
                playlists,
                notes,
                keep_partial,
                full,
                heard,
            );
            let plan = plan_of(stream, ssif, selection, notes).0;
            let files = |name: Seq<char>| names_scanned(stream, selection, name);
            &&& sound(heard, v.heard, heard.told, files)
            &&& v.failure is None ==> plan is Ok && v.heard.progress.done >= clamped(
                heard.progress.done + job_bytes(
                    plan->Ok_0.jobs,
                    plan->Ok_0.jobs.len() as int,
                ),
                heard.progress.total,
            )
            &&& v.failure is None && heard.progress.observed && scans_something(stream, selection)
                ==> v.heard.told.len() > heard.told.len()
        }),
{
    let files = |name: Seq<char>| names_scanned(stream, selection, name);
    let (plan, after) = plan_of(stream, ssif, selection, notes);
    let start = PassView { playlists, notes: after, files: Seq::empty(), failure: None, heard };
    lemma_plan_names(stream, ssif, selection, notes);
    if let Ok(plan) = plan {
        lemma_pass_told(
            units,
            store,
            plan,
            plan.jobs.len() as int,
            start,
            keep_partial,
            full,
            files,
        );
    } else {
        let told = heard.told;
        assert(told.subrange(0, told.len() as int) =~= told);
    }
}

/// What a measurement tells its observer, and that it comes to the end of its count.
pub proof fn lemma_what_a_measurement_tells<A: AccessUnits, S: StreamStore>(
    units: A,
    store: S,
    l: LayoutView,
    selection: Option<Seq<Seq<char>>>,
    o: OpenedView,
    notes: Option<Seq<Note>>,
    measure: bool,
    keep_partial: bool,
    told: Seq<Event>,
)
    requires
        o.maps.stream_files == sizes_of(
            files_of(l.stream),
            BdFileKind::Stream,
            files_of(l.stream).len() as int,
        ),
        o.maps.interleaved_files == sizes_of(
            files_of(l.ssif),
            BdFileKind::Interleaved,
            files_of(l.ssif).len() as int,
        ),
    ensures
        ({
            let m = measured_by(
                units,
                store,
                l.stream,
                l.ssif,
                selection,
                o.maps,
                o.playlists,
                notes,
                measure,
                keep_partial,
                told,
            );
            let total = observed_total(o, selection);
            &&& tells(
                told,
                m.told,
                total,
                |name: Seq<char>| names_scanned(l.stream, selection, name),
            )
            &&& m.failure is None && scans_something(l.stream, selection) ==> m.told.len()
                > told.len()
            &&& m.failure is None && m.told.len() > told.len() && sources_apart(
                files_of(l.stream),
                files_of(l.ssif),
                selection,
            ) ==> m.told.last().done == total
        }),
{
    let total = observed_total(o, selection);
    let silent = Progress { observed: false, done: 0, total: 0 };
    let observed = Progress { observed: true, done: 0, total };
    let begin = Heard {
        progress: if measure {
            silent
        } else {
            observed
        },
        told,
    };
    lemma_pass_tells(
        units,
        store,
        l.stream,
        l.ssif,
        selection,
        o.playlists,
        notes,
        keep_partial,
        false,
        begin,
    );
    let quick = pass_of(
        units,
        store,
        l.stream,
        l.ssif,
        selection,
        o.playlists,
        notes,
        keep_partial,
        false,
        begin,
    );
    lemma_pass_bytes_nonneg(
        o.maps.stream_files,
        o.maps.interleaved_files,
        selection,
        o.maps.stream_files.len() as int,
    );
    if sources_apart(files_of(l.stream), files_of(l.ssif), selection) {
        lemma_plan_covers(l, selection, o, notes);
        lemma_plan_covers(l, selection, o, quick.notes);
    }
    if quick.failure is None && measure {
        let ready = quick.playlists.map_values(
            |p: PlaylistView| prepared(p, o.maps.clip_files, o.maps.stream_files, quick.files),
        );
        assert(quick.heard.told == told);
        lemma_pass_tells(
            units,
            store,
            l.stream,
            l.ssif,
            selection,
            ready,
            quick.notes,
            keep_partial,
            true,
            Heard { progress: observed, told },
        );
    }
}

proof fn lemma_plan_covers(
    l: LayoutView,
    selection: Option<Seq<Seq<char>>>,
    o: OpenedView,
    notes: Option<Seq<Note>>,
)
    requires
        o.maps.stream_files == sizes_of(
            files_of(l.stream),
            BdFileKind::Stream,
            files_of(l.stream).len() as int,
        ),
        o.maps.interleaved_files == sizes_of(
            files_of(l.ssif),
            BdFileKind::Interleaved,
            files_of(l.ssif).len() as int,
        ),
        sources_apart(files_of(l.stream), files_of(l.ssif), selection),
    ensures
        match plan_of(l.stream, l.ssif, selection, notes).0 {
            Ok(plan) => pass_bytes(
                o.maps.stream_files,
                o.maps.interleaved_files,
                selection,
                o.maps.stream_files.len() as int,
            ) <= job_bytes(plan.jobs, plan.jobs.len() as int),
            Err(_) => true,
        },
{
    if let Ok(plan) = plan_of(l.stream, l.ssif, selection, notes).0 {
        if l.stream is Some {
            assert(plan.files == files_of(l.stream));
            assert(plan.interleaved == files_of(l.ssif));
            lemma_jobs_cover_the_bytes(
                plan.files,
                plan.interleaved,
                selection,
                plan.files.len() as int,
            );
        }
    }
}

/// What a scan tells its observer, whatever comes of it. A metadata scan tells nothing. Any
/// other tells of one pass, over the bytes of the stream files that take part: every event
/// names one of these files, gives the same total and a count no higher than that, and the
/// count never falls. Where the scan gives a report and a stream file took part, the
/// observer has been told, and the last count is the total; that is unless two stream files
/// of different names share an interleaved source, which is counted for both and read once.
pub proof fn lemma_what_the_observer_is_told<T: StreamText, A: AccessUnits, S: StreamStore>(
    text: T,
    units: A,
    store: S,
    root: DirEntry,
    mode: ScanMode,
    keep_partial: bool,
    selection: Option<Seq<Seq<char>>>,
    notes: Option<Seq<Note>>,
    told: Seq<Event>,
)
    ensures
        ({
            let want = disc_of(
                text,
                units,
                store,
                root,
                mode,
                keep_partial,
                selection,
                notes,
                told,
            );
            match layout_of(root, notes) {
                (Ok(l), located) => match opened_at(root, l, located).0 {
                    Ok(o) if !(mode is Metadata) => {
                        let total = observed_total(o, selection);
                        &&& tells(
                            told,
                            want.told,
                            total,
                            |name: Seq<char>| names_scanned(l.stream, selection, name),
                        )
                        &&& want.disc is Ok && scans_something(l.stream, selection)
                            ==> want.told.len() > told.len()
                        &&& want.disc is Ok && want.told.len() > told.len() && sources_apart(
                            files_of(l.stream),
                            files_of(l.ssif),
                            selection,
                        ) ==> want.told.last().done == total
                    },
                    _ => want.told == told,
                },
                _ => want.told == told,
            }
        }),
{
    if let (Ok(l), located) = layout_of(root, notes) {
        let (opened, after) = opened_at(root, l, located);
        if let Ok(o) = opened {
            assert(o.maps.stream_files =~= sizes_of(
                files_of(l.stream),
                BdFileKind::Stream,
                files_of(l.stream).len() as int,
            ));
            assert(o.maps.interleaved_files =~= sizes_of(
                files_of(l.ssif),
                BdFileKind::Interleaved,
                files_of(l.ssif).len() as int,
            ));
            if !(mode is Metadata) {
                lemma_what_a_measurement_tells(
                    units,
                    store,
                    l,
                    selection,
                    o,
                    after,
                    mode is Full,
                    keep_partial,
                    told,
                );
            }
        }
    }
}

} // verus!
