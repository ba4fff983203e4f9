//! What holds of every pass over the stream files of a disc, whatever is in them.

use vstd::prelude::*;

use super::credit::{credited, credited_playlist, rated_playlist, Credit};
use super::demux_laws::{
    lemma_analysis_keeps_order, lemma_other_playlists_stay, lemma_step_keeps_order,
    lemma_window_counts_once_per_clip, order_lists_streams,
};
use super::m2ts::{
    blank_file, finished_over, flushed, open_window, rated_playlists, stays_open, step, updated,
    AccessUnitScan, Demux, FileView,
};
use super::measure::{one_scan, pass_over, pass_step, PassView, StreamScanView, StreamStore};
use super::mpls::{plays, PlaylistView};
use super::passes::{JobView, PlanView};
use super::scan::{analysis, blank_scan, counted, joined, outcome_of, scanned, AccessUnits, Scan};
use crate::error::{Failure, Note};
use crate::maps::sorted_keys;
use crate::names::{distinct, find, lemma_put_find, put};
use crate::text::upper;

verus! {

// ---- partial files ----

/// Whether two passes stand alike but for the files that they keep.
pub open spec fn alike_but_files(a: PassView, b: PassView) -> bool {
    a.playlists == b.playlists && a.notes == b.notes && a.failure == b.failure && a.heard
        == b.heard
}

/// Whether partial files are kept decides over those files alone: what was attributed to
/// the playlists, what was noted, what the observer was told, and whether the pass ends are
/// the same.
pub proof fn lemma_keeping_partial_files_changes_nothing_else<A: AccessUnits, S: StreamStore>(
    units: A,
    store: S,
    plan: PlanView,
    n: int,
    start: PassView,
    full: bool,
)
    ensures
        alike_but_files(
            pass_over(units, store, plan, n, start, true, full),
            pass_over(units, store, plan, n, start, false, full),
        ),
    decreases n,
{
    if n > 0 {
        lemma_keeping_partial_files_changes_nothing_else(units, store, plan, n - 1, start, full);
    }
}

/// A strict pass keeps no partial file whatever the switch says.
pub proof fn lemma_strict_pass_keeps_no_partial_file<A: AccessUnits, S: StreamStore>(
    units: A,
    store: S,
    plan: PlanView,
    n: int,
    start: PassView,
    full: bool,
)
    requires
        start.notes is None,
    ensures
        pass_over(units, store, plan, n, start, true, full) == pass_over(
            units,
            store,
            plan,
            n,
            start,
            false,
            full,
        ),
        pass_over(units, store, plan, n, start, true, full).notes is None,
    decreases n,
{
    if n > 0 {
        lemma_strict_pass_keeps_no_partial_file(units, store, plan, n - 1, start, full);
    }
}

// ---- stopping ----

/// Whether none of the notes is that the scan was asked to stop.
pub open spec fn notes_no_stop(notes: Option<Seq<Note>>) -> bool {
    match notes {
        Some(list) => forall|k: int|
            0 <= k < list.len() ==> !((#[trigger] list[k]).reason is ScanCancelled),
        None => true,
    }
}

/// That a scan was asked to stop is never noted: it ends the pass, and no file is taken for
/// damaged over it.
pub proof fn lemma_a_stop_is_never_noted<A: AccessUnits, S: StreamStore>(
    units: A,
    store: S,
    plan: PlanView,
    n: int,
    start: PassView,
    keep_partial: bool,
    full: bool,
)
    requires
        notes_no_stop(start.notes),
    ensures
        notes_no_stop(pass_over(units, store, plan, n, start, keep_partial, full).notes),
    decreases n,
{
    if n > 0 {
        lemma_a_stop_is_never_noted(units, store, plan, n - 1, start, keep_partial, full);
    }
}

// ---- one playlist among others ----

/// Whether two scans stand alike, but for the playlists other than the `i`th of the one and
/// the `j`th of the other.
pub open spec fn alike(d: Demux, i: int, e: Demux, j: int) -> bool {
    &&& d.parser == e.parser
    &&& d.file == e.file
    &&& 0 <= i < d.playlists.len()
    &&& 0 <= j < e.playlists.len()
    &&& d.playlists[i] == e.playlists[j]
}

proof fn lemma_flushed_alike(
    file: FileView,
    ps: Seq<PlaylistView>,
    i: int,
    qs: Seq<PlaylistView>,
    j: int,
    pids: Seq<u16>,
    n: int,
    pts_pid: u16,
    pts: i64,
    interval: i64,
)
    requires
        0 <= i < ps.len(),
        0 <= j < qs.len(),
        ps[i] == qs[j],
    ensures
        ({
            let (f, p) = flushed(file, ps, pids, n, pts_pid, pts, interval);
            let (g, q) = flushed(file, qs, pids, n, pts_pid, pts, interval);
            &&& f == g
            &&& p.len() == ps.len()
            &&& q.len() == qs.len()
            &&& p[i] == q[j]
        }),
    decreases n,
{
    if n > 0 {
        lemma_flushed_alike(file, ps, i, qs, j, pids, n - 1, pts_pid, pts, interval);
    }
}

proof fn lemma_updated_alike(
    file: FileView,
    ps: Seq<PlaylistView>,
    i: int,
    qs: Seq<PlaylistView>,
    j: int,
    pts_pid: u16,
    pts: i64,
    interval: i64,
)
    requires
        0 <= i < ps.len(),
        0 <= j < qs.len(),
        ps[i] == qs[j],
    ensures
        ({
            let (f, p) = updated(file, ps, pts_pid, pts, interval);
            let (g, q) = updated(file, qs, pts_pid, pts, interval);
            &&& f == g
            &&& p.len() == ps.len()
            &&& q.len() == qs.len()
            &&& p[i] == q[j]
        }),
{
    reveal(updated);
    let pids = sorted_keys(file.stream_states.dom());
    lemma_flushed_alike(file, ps, i, qs, j, pids, pids.len() as int, pts_pid, pts, interval);
}

proof fn lemma_step_alike(d: Demux, i: int, e: Demux, j: int, b: u8, full: bool)
    requires
        alike(d, i, e, j),
    ensures
        alike(step(d, b, full), i, step(e, b, full), j),
        step(d, b, full).playlists.len() == d.playlists.len(),
        step(e, b, full).playlists.len() == e.playlists.len(),
{
    reveal(step);
    assert forall|pid: u16, pts: i64, interval: i64, file: FileView| true implies {
        let (f, p) = #[trigger] updated(file, d.playlists, pid, pts, interval);
        let (g, q) = updated(file, e.playlists, pid, pts, interval);
        &&& f == g
        &&& p.len() == d.playlists.len()
        &&& q.len() == e.playlists.len()
        &&& p[i] == q[j]
    } by {
        lemma_updated_alike(file, d.playlists, i, e.playlists, j, pid, pts, interval);
    }
}

proof fn lemma_scanned_alike(
    s: Scan,
    i: int,
    t: Scan,
    j: int,
    bytes: Seq<u8>,
    full: bool,
    analyse: spec_fn(FileView, u16) -> Option<AccessUnitScan>,
)
    requires
        alike(s.demux, i, t.demux, j),
        s.finished == t.finished,
    ensures
        ({
            let a = scanned(s, bytes, full, analyse);
            let b = scanned(t, bytes, full, analyse);
            &&& alike(a.demux, i, b.demux, j)
            &&& a.finished == b.finished
            &&& a.demux.playlists.len() == s.demux.playlists.len()
            &&& b.demux.playlists.len() == t.demux.playlists.len()
        }),
    decreases bytes.len(),
{
    if bytes.len() > 0 {
        lemma_scanned_alike(s, i, t, j, bytes.drop_last(), full, analyse);
        let a = scanned(s, bytes.drop_last(), full, analyse);
        let b = scanned(t, bytes.drop_last(), full, analyse);
        lemma_step_alike(a.demux, i, b.demux, j, bytes.last(), full);
    }
}

proof fn lemma_finished_alike(
    file: FileView,
    ps: Seq<PlaylistView>,
    i: int,
    qs: Seq<PlaylistView>,
    j: int,
    pids: Seq<u16>,
    n: int,
)
    requires
        0 <= i < ps.len(),
        0 <= j < qs.len(),
        ps[i] == qs[j],
    ensures
        ({
            let (f, p, last, diff) = finished_over(file, ps, pids, n);
            let (g, q, last2, diff2) = finished_over(file, qs, pids, n);
            &&& f == g
            &&& last == last2
            &&& diff == diff2
            &&& p.len() == ps.len()
            &&& q.len() == qs.len()
            &&& p[i] == q[j]
        }),
    decreases n,
{
    if n > 0 {
        lemma_finished_alike(file, ps, i, qs, j, pids, n - 1);
        let (f, p, last, diff) = finished_over(file, ps, pids, n - 1);
        let (g, q, _, _) = finished_over(file, qs, pids, n - 1);
        assert forall|pid: u16, pts: i64, interval: i64| true implies {
            let (f2, p2) = #[trigger] updated(f, p, pid, pts, interval);
            let (g2, q2) = updated(f, q, pid, pts, interval);
            &&& f2 == g2
            &&& p2.len() == p.len()
            &&& q2.len() == q.len()
            &&& p2[i] == q2[j]
        } by {
            lemma_updated_alike(f, p, i, q, j, pid, pts, interval);
        }
    }
}

/// What a scan makes of a stream file, and of one playlist, does not rest on the other
/// playlists: there could be others, or none.
pub proof fn lemma_a_playlist_gets_the_same_among_others<A: AccessUnits>(
    units: A,
    file: FileView,
    ps: Seq<PlaylistView>,
    i: int,
    qs: Seq<PlaylistView>,
    j: int,
    chunks: Seq<Seq<u8>>,
    failure: Option<Failure>,
    full: bool,
)
    requires
        0 <= i < ps.len(),
        0 <= j < qs.len(),
        ps[i] == qs[j],
    ensures
        ({
            let a = outcome_of(units, file, ps, chunks, failure, full);
            let b = outcome_of(units, file, qs, chunks, failure, full);
            &&& a.file == b.file
            &&& a.failure == b.failure
            &&& a.playlists.len() == ps.len()
            &&& b.playlists.len() == qs.len()
            &&& a.playlists[i] == b.playlists[j]
        }),
{
    let s = blank_scan(file, ps);
    let t = blank_scan(file, qs);
    let analyse = analysis(units, full);
    lemma_scanned_alike(s, i, t, j, joined(chunks), full, analyse);
    let a = scanned(s, joined(chunks), full, analyse);
    let b = scanned(t, joined(chunks), full, analyse);
    let pids = sorted_keys(a.demux.file.streams.dom());
    lemma_finished_alike(
        a.demux.file,
        a.demux.playlists,
        i,
        b.demux.playlists,
        j,
        pids,
        pids.len() as int,
    );
    lemma_counted_alike(s, i, t, j, chunks, 0, full, analyse);
}

proof fn lemma_counted_alike(
    s: Scan,
    i: int,
    t: Scan,
    j: int,
    chunks: Seq<Seq<u8>>,
    so_far: u64,
    full: bool,
    analyse: spec_fn(FileView, u16) -> Option<AccessUnitScan>,
)
    requires
        alike(s.demux, i, t.demux, j),
        s.finished == t.finished,
    ensures
        counted(s, chunks, so_far, full, analyse) == counted(
            t,
            chunks,
            so_far,
            full,
            analyse,
        ),
    decreases chunks.len(),
{
    if chunks.len() > 0 {
        lemma_scanned_alike(s, i, t, j, chunks[0], full, analyse);
        lemma_counted_alike(
            scanned(s, chunks[0], full, analyse),
            i,
            scanned(t, chunks[0], full, analyse),
            j,
            chunks.drop_first(),
            so_far.wrapping_add(chunks[0].len() as u64),
            full,
            analyse,
        );
    }
}

// ---- the files that a playlist plays ----

/// Whether a playlist has the clips of another, by name.
pub open spec fn same_clip_names(p: PlaylistView, q: PlaylistView) -> bool {
    &&& p.clips.len() == q.clips.len()
    &&& forall|k: int| 0 <= k < p.clips.len() ==> #[trigger] q.clips[k].name == p.clips[k].name
}

/// Whether what became of a playlist while `name` was scanned is in order: it and its clips
/// go by their names, and where it does not play the file it is as it was.
pub open spec fn kept(p: PlaylistView, q: PlaylistView, name: Seq<char>) -> bool {
    p.name == q.name && same_clip_names(p, q) && (!plays(p, name) ==> q == p)
}

proof fn lemma_same_names_play_the_same(p: PlaylistView, q: PlaylistView, name: Seq<char>)
    requires
        same_clip_names(p, q),
    ensures
        plays(p, name) == plays(q, name),
{
    if plays(p, name) {
        let k = choose|k: int| 0 <= k < p.clips.len() && #[trigger] p.clips[k].name == name;
        assert(q.clips[k].name == name);
    }
    if plays(q, name) {
        let k = choose|k: int| 0 <= k < q.clips.len() && #[trigger] q.clips[k].name == name;
        assert(p.clips[k].name == name);
    }
}

proof fn lemma_credited_name(p: PlaylistView, n: int, w: Credit)
    ensures
        credited(p, n, w).name == p.name,
    decreases n,
{
    if n > 0 {
        lemma_credited_name(p, n - 1, w);
    }
}

proof fn lemma_credited_kept(p: PlaylistView, q: PlaylistView, w: Credit)
    requires
        kept(p, q, w.file),
    ensures
        kept(p, credited_playlist(q, w), w.file),
{
    lemma_window_counts_once_per_clip(q, w);
    lemma_credited_name(q, q.clips.len() as int, w);
    lemma_same_names_play_the_same(p, q, w.file);
    if !plays(p, w.file) {
        lemma_other_playlists_stay(q, w);
    }
    let r = credited_playlist(q, w);
    assert forall|k: int| 0 <= k < p.clips.len() implies #[trigger] r.clips[k].name
        == p.clips[k].name by {
        assert(q.clips[k].name == p.clips[k].name);
    }
}

proof fn lemma_flushed_kept(
    file: FileView,
    ps: Seq<PlaylistView>,
    i: int,
    p: PlaylistView,
    pids: Seq<u16>,
    n: int,
    pts_pid: u16,
    pts: i64,
    interval: i64,
)
    requires
        0 <= i < ps.len(),
        kept(p, ps[i], file.name),
    ensures
        flushed(file, ps, pids, n, pts_pid, pts, interval).0.name == file.name,
        flushed(file, ps, pids, n, pts_pid, pts, interval).1.len() == ps.len(),
        kept(p, flushed(file, ps, pids, n, pts_pid, pts, interval).1[i], file.name),
    decreases n,
{
    if n > 0 {
        lemma_flushed_kept(file, ps, i, p, pids, n - 1, pts_pid, pts, interval);
        let (f, qs) = flushed(file, ps, pids, n - 1, pts_pid, pts, interval);
        let pid = pids[n - 1];
        if !stays_open(f, pid, pts_pid) {
            lemma_credited_kept(p, qs[i], open_window(f, pid, pts, interval));
        }
    }
}

proof fn lemma_updated_kept(
    file: FileView,
    ps: Seq<PlaylistView>,
    i: int,
    p: PlaylistView,
    pts_pid: u16,
    pts: i64,
    interval: i64,
)
    requires
        0 <= i < ps.len(),
        kept(p, ps[i], file.name),
    ensures
        updated(file, ps, pts_pid, pts, interval).0.name == file.name,
        updated(file, ps, pts_pid, pts, interval).1.len() == ps.len(),
        kept(p, updated(file, ps, pts_pid, pts, interval).1[i], file.name),
{
    reveal(updated);
    let pids = sorted_keys(file.stream_states.dom());
    lemma_flushed_kept(file, ps, i, p, pids, pids.len() as int, pts_pid, pts, interval);
    let (f, qs) = flushed(file, ps, pids, pids.len() as int, pts_pid, pts, interval);
    lemma_same_names_play_the_same(p, qs[i], file.name);
    let r = rated_playlists(qs, f.name)[i];
    if plays(qs[i], f.name) {
        assert(r == rated_playlist(qs[i]));
        assert(r.clips == qs[i].clips);
    } else {
        assert(r == qs[i]);
    }
}

/// Whether a scan in progress has kept a playlist.
spec fn keeps(d: Demux, i: int, p: PlaylistView, name: Seq<char>) -> bool {
    &&& order_lists_streams(d.file)
    &&& d.file.name == name
    &&& 0 <= i < d.playlists.len()
    &&& kept(p, d.playlists[i], name)
}

proof fn lemma_step_kept(d: Demux, i: int, p: PlaylistView, name: Seq<char>, b: u8, full: bool)
    requires
        keeps(d, i, p, name),
    ensures
        keeps(step(d, b, full), i, p, name),
{
    lemma_step_keeps_order(d, b, full);
    reveal(step);
    assert forall|pid: u16, pts: i64, interval: i64, file: FileView|
        file.name == name implies {
        let (f, qs) = #[trigger] updated(file, d.playlists, pid, pts, interval);
        &&& qs.len() == d.playlists.len()
        &&& kept(p, qs[i], name)
    } by {
        lemma_updated_kept(file, d.playlists, i, p, pid, pts, interval);
    }
}

proof fn lemma_scanned_kept(
    s: Scan,
    i: int,
    p: PlaylistView,
    name: Seq<char>,
    bytes: Seq<u8>,
    full: bool,
    analyse: spec_fn(FileView, u16) -> Option<AccessUnitScan>,
)
    requires
        keeps(s.demux, i, p, name),
    ensures
        keeps(scanned(s, bytes, full, analyse).demux, i, p, name),
    decreases bytes.len(),
{
    if bytes.len() > 0 {
        lemma_scanned_kept(s, i, p, name, bytes.drop_last(), full, analyse);
        let a = scanned(s, bytes.drop_last(), full, analyse);
        lemma_step_kept(a.demux, i, p, name, bytes.last(), full);
        let d = step(a.demux, bytes.last(), full);
        match d.parser.pending {
            Some(pid) => {
                lemma_analysis_keeps_order(d.file, pid, analyse(d.file, pid));
            },
            None => {},
        }
    }
}

proof fn lemma_finished_kept(
    file: FileView,
    ps: Seq<PlaylistView>,
    i: int,
    p: PlaylistView,
    pids: Seq<u16>,
    n: int,
)
    requires
        0 <= i < ps.len(),
        kept(p, ps[i], file.name),
    ensures
        ({
            let (f, qs, _, _) = finished_over(file, ps, pids, n);
            &&& f.name == file.name
            &&& qs.len() == ps.len()
            &&& kept(p, qs[i], file.name)
        }),
    decreases n,
{
    if n > 0 {
        lemma_finished_kept(file, ps, i, p, pids, n - 1);
        let (f, qs, last, diff) = finished_over(file, ps, pids, n - 1);
        assert forall|pid: u16, pts: i64, interval: i64| true implies {
            let (f2, qs2) = #[trigger] updated(f, qs, pid, pts, interval);
            &&& f2.name == file.name
            &&& qs2.len() == qs.len()
            &&& kept(p, qs2[i], file.name)
        } by {
            lemma_updated_kept(f, qs, i, p, pid, pts, interval);
        }
    }
}

/// The scan of a stream file keeps the clips of every playlist, and changes nothing in one
/// that does not play the file.
pub proof fn lemma_a_scan_leaves_other_playlists_alone<A: AccessUnits>(
    units: A,
    file: FileView,
    ps: Seq<PlaylistView>,
    i: int,
    chunks: Seq<Seq<u8>>,
    failure: Option<Failure>,
    full: bool,
)
    requires
        0 <= i < ps.len(),
    ensures
        outcome_of(units, file, ps, chunks, failure, full).playlists.len() == ps.len(),
        kept(ps[i], outcome_of(units, file, ps, chunks, failure, full).playlists[i], file.name),
{
    let s = blank_scan(file, ps);
    let analyse = analysis(units, full);
    lemma_scanned_kept(s, i, ps[i], file.name, joined(chunks), full, analyse);
    lemma_scanned_alike(s, i, s, i, joined(chunks), full, analyse);
    let a = scanned(s, joined(chunks), full, analyse);
    let pids = sorted_keys(a.demux.file.streams.dom());
    lemma_finished_kept(a.demux.file, a.demux.playlists, i, ps[i], pids, pids.len() as int);
}

// ---- a selection ----

/// The first `n` jobs, but for those whose file a playlist does not play.
pub open spec fn own_jobs(jobs: Seq<JobView>, n: int, p: PlaylistView) -> Seq<JobView>
    decreases n,
{
    if n <= 0 {
        Seq::empty()
    } else if plays(p, jobs[n - 1].name) {
        own_jobs(jobs, n - 1, p).push(jobs[n - 1])
    } else {
        own_jobs(jobs, n - 1, p)
    }
}

/// Whether the jobs of a plan go by the upper-cased names of their files.
pub open spec fn goes_by_names(plan: PlanView) -> bool {
    forall|k: int|
        0 <= k < plan.jobs.len() ==> (#[trigger] plan.jobs[k]).name == upper(
            plan.files[plan.jobs[k].file].name@,
        )
}

proof fn lemma_pass_of_a_prefix<A: AccessUnits, S: StreamStore>(
    units: A,
    store: S,
    a: PlanView,
    b: PlanView,
    n: int,
    start: PassView,
    keep_partial: bool,
    full: bool,
)
    requires
        a.files == b.files,
        a.interleaved == b.interleaved,
        n <= a.jobs.len(),
        n <= b.jobs.len(),
        forall|k: int| 0 <= k < n ==> #[trigger] a.jobs[k] == b.jobs[k],
    ensures
        pass_over(units, store, a, n, start, keep_partial, full) == pass_over(
            units,
            store,
            b,
            n,
            start,
            keep_partial,
            full,
        ),
    decreases n,
{
    if n > 0 {
        lemma_pass_of_a_prefix(units, store, a, b, n - 1, start, keep_partial, full);
        assert(a.jobs[n - 1] == b.jobs[n - 1]);
    }
}

/// Whether two passes stand alike for a playlist that is the `i`th of the one and the `j`th
/// of the other: it is the same, and so are the scanned files that it plays.
pub open spec fn alike_for(a: PassView, i: int, b: PassView, j: int, p: PlaylistView) -> bool {
    &&& 0 <= i < a.playlists.len()
    &&& 0 <= j < b.playlists.len()
    &&& a.playlists[i] == b.playlists[j]
    &&& same_clip_names(p, a.playlists[i])
    &&& a.notes is None == b.notes is None
    &&& a.failure is None
    &&& b.failure is None
    &&& distinct(a.files)
    &&& distinct(b.files)
    &&& forall|name: Seq<char>| #[trigger]
        plays(p, name) ==> find(a.files, name) == find(b.files, name)
}

/// What one job does to a pass, but for the playlist that it is about.
proof fn lemma_own_job<A: AccessUnits, S: StreamStore>(
    units: A,
    store: S,
    plan: PlanView,
    job: JobView,
    a: PassView,
    i: int,
    b: PassView,
    j: int,
    p: PlaylistView,
    keep_partial: bool,
    full: bool,
)
    requires
        alike_for(a, i, b, j, p),
        pass_step(units, store, plan, job, a, keep_partial, full).failure is None,
    ensures
        alike_for(
            pass_step(units, store, plan, job, a, keep_partial, full),
            i,
            pass_step(units, store, plan, job, b, keep_partial, full),
            j,
            p,
        ),
{
    let file = plan.files[job.file];
    let interleaved = match job.interleaved {
        Some(k) => Some(plan.interleaved[k]),
        None => None,
    };
    let (content, source) = match interleaved {
        Some(s) => (store.content(s, true, full), Some(upper(s.name@))),
        None => (store.content(file, false, full), None),
    };
    let blank = blank_file(upper(file.name@), source);
    match content {
        Ok((chunks, failure)) => {
            lemma_a_playlist_gets_the_same_among_others(
                units,
                blank,
                a.playlists,
                i,
                b.playlists,
                j,
                chunks,
                failure,
                full,
            );
            lemma_a_scan_leaves_other_playlists_alone(
                units,
                blank,
                a.playlists,
                i,
                chunks,
                failure,
                full,
            );
        },
        Err(_) => {},
    }
    let (x, xs) = one_scan(units, store, file, interleaved, a.playlists, full);
    let (y, ys) = one_scan(units, store, file, interleaved, b.playlists, full);
    assert(x == y);
    assert(same_clip_names(p, xs[i]));
    let kept_file = match x {
        StreamScanView::Complete(f) => Some(f),
        StreamScanView::Partial(f, _) => if keep_partial {
            Some(f)
        } else {
            None
        },
        StreamScanView::Nothing(_) => None,
    };
    match kept_file {
        Some(f) => {
            assert forall|name: Seq<char>| #[trigger] plays(p, name) implies find(
                put(a.files, job.name, f),
                name,
            ) == find(put(b.files, job.name, f), name) by {
                lemma_put_find(a.files, job.name, f, name);
                lemma_put_find(b.files, job.name, f, name);
            }
            lemma_put_find(a.files, job.name, f, job.name);
            lemma_put_find(b.files, job.name, f, job.name);
        },
        None => {},
    }
}

/// What a job does to a playlist that does not play its file: nothing.
proof fn lemma_other_job<A: AccessUnits, S: StreamStore>(
    units: A,
    store: S,
    plan: PlanView,
    job: JobView,
    a: PassView,
    i: int,
    b: PassView,
    j: int,
    p: PlaylistView,
    keep_partial: bool,
    full: bool,
)
    requires
        alike_for(a, i, b, j, p),
        job.name == upper(plan.files[job.file].name@),
        !plays(p, job.name),
        pass_step(units, store, plan, job, a, keep_partial, full).failure is None,
    ensures
        alike_for(
            pass_step(units, store, plan, job, a, keep_partial, full),
            i,
            b,
            j,
            p,
        ),
{
    let file = plan.files[job.file];
    let interleaved = match job.interleaved {
        Some(k) => Some(plan.interleaved[k]),
        None => None,
    };
    let (content, source) = match interleaved {
        Some(s) => (store.content(s, true, full), Some(upper(s.name@))),
        None => (store.content(file, false, full), None),
    };
    let blank = blank_file(upper(file.name@), source);
    lemma_same_names_play_the_same(p, a.playlists[i], job.name);
    match content {
        Ok((chunks, failure)) => {
            lemma_a_scan_leaves_other_playlists_alone(
                units,
                blank,
                a.playlists,
                i,
                chunks,
                failure,
                full,
            );
        },
        Err(_) => {},
    }
    let (x, xs) = one_scan(units, store, file, interleaved, a.playlists, full);
    assert(xs[i] == a.playlists[i]);
    let kept_file = match x {
        StreamScanView::Complete(f) => Some(f),
        StreamScanView::Partial(f, _) => if keep_partial {
            Some(f)
        } else {
            None
        },
        StreamScanView::Nothing(_) => None,
    };
    match kept_file {
        Some(f) => {
            assert forall|name: Seq<char>| #[trigger] plays(p, name) implies find(
                put(a.files, job.name, f),
                name,
            ) == find(b.files, name) by {
                lemma_put_find(a.files, job.name, f, name);
            }
            lemma_put_find(a.files, job.name, f, job.name);
        },
        None => {},
    }
}

/// What a pass makes of a playlist, and of the stream files that it plays, rests on those
/// files alone: a pass over them and no others makes the same. So a selection that takes in
/// the files of a playlist changes nothing of what is reported of it. This is for a pass
/// that comes to its end.
pub proof fn lemma_a_playlist_rests_on_its_own_files<A: AccessUnits, S: StreamStore>(
    units: A,
    store: S,
    plan: PlanView,
    n: int,
    a: PassView,
    i: int,
    b: PassView,
    j: int,
    p: PlaylistView,
    keep_partial: bool,
    full: bool,
)
    requires
        0 <= n <= plan.jobs.len(),
        goes_by_names(plan),
        alike_for(a, i, b, j, p),
        pass_over(units, store, plan, n, a, keep_partial, full).failure is None,
    ensures
        ({
            let own = own_jobs(plan.jobs, n, p);
            alike_for(
                pass_over(units, store, plan, n, a, keep_partial, full),
                i,
                pass_over(
                    units,
                    store,
                    PlanView { jobs: own, ..plan },
                    own.len() as int,
                    b,
                    keep_partial,
                    full,
                ),
                j,
                p,
            )
        }),
    decreases n,
{
    if n > 0 {
        lemma_a_playlist_rests_on_its_own_files(
            units,
            store,
            plan,
            n - 1,
            a,
            i,
            b,
            j,
            p,
            keep_partial,
            full,
        );
        let job = plan.jobs[n - 1];
        let before = own_jobs(plan.jobs, n - 1, p);
        let own = own_jobs(plan.jobs, n, p);
        let x = pass_over(units, store, plan, n - 1, a, keep_partial, full);
        let y = pass_over(
            units,
            store,
            PlanView { jobs: before, ..plan },
            before.len() as int,
            b,
            keep_partial,
            full,
        );
        if plays(p, job.name) {
            lemma_own_job(units, store, plan, job, x, i, y, j, p, keep_partial, full);
            lemma_pass_of_a_prefix(
                units,
                store,
                PlanView { jobs: before, ..plan },
                PlanView { jobs: own, ..plan },
                before.len() as int,
                b,
                keep_partial,
                full,
            );
            assert(own[own.len() - 1] == job);
            let small = PlanView { jobs: own, ..plan };
            assert(pass_step(units, store, plan, job, y, keep_partial, full) == pass_step(
                units,
                store,
                small,
                job,
                y,
                keep_partial,
                full,
            ));
        } else {
            lemma_other_job(units, store, plan, job, x, i, y, j, p, keep_partial, full);
        }
    }
}

} // verus!
