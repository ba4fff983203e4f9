//! What holds of every scan of a disc, whatever is on it.

use vstd::prelude::*;

use super::catalog::{opened_at, summaries_from, DiscView, MapsView};
use super::clpi::ClipFileView;
use super::disc::{capped, PlaylistSummaryView, ScanMode};
use super::discovery::{first_scannable, scannable, DirEntry, MAX_BDMV_ANCESTORS};
use super::m2ts::{blank_file, FileView};
use super::measure::{measured_by, pass_of, pass_over, MeasureView, PassView, StreamStore};
use super::mpls::PlaylistView;
use super::open::{backups_of, lacking, layout_of};
use super::open_laws::{
    in_name_order, index_in_order, lemma_opened_playlists_are_sorted,
    lemma_quiet_metadata_is_the_strict_one, lemma_resilient_layout_fails_only_without_structure,
    lemma_resilient_metadata_is_the_strict_one_on_a_healthy_disc,
    lemma_resilient_metadata_never_fails, lemma_resilient_summaries_never_fail, quiet_is_strict,
};
use super::pass_laws::lemma_a_scan_leaves_other_playlists_alone;
use super::passes::{pass_bytes, plan_of, prepared, refreshed, Event, Heard, PlanView, Progress};
use super::present::StreamText;
use super::resolve::metas_of;
use super::rom::{disc_of, root_of, ScanOutcome};
use super::scan::{outcome_of, AccessUnits};
use super::sink::noted;
use super::summarise::summary_by;
use crate::error::{Failure, Note, ScanStage};
use crate::text::{before, upper};

verus! {

/// A pass with other notes.
spec fn with_notes(v: PassView, notes: Option<Seq<Note>>) -> PassView {
    PassView { notes, ..v }
}

/// A measurement with other notes.
spec fn measured_with(v: MeasureView, notes: Option<Seq<Note>>) -> MeasureView {
    MeasureView { notes, ..v }
}

// ---- what a resilient scan gives ----

proof fn lemma_resilient_pass<A: AccessUnits, S: StreamStore>(
    units: A,
    store: S,
    plan: PlanView,
    n: int,
    start: PassView,
    keep_partial: bool,
    full: bool,
)
    requires
        start.notes is Some,
        start.failure is None,
    ensures
        ({
            let v = pass_over(units, store, plan, n, start, keep_partial, full);
            let strict = pass_over(
                units,
                store,
                plan,
                n,
                with_notes(start, None),
                keep_partial,
                full,
            );
            &&& v.notes is Some
            &&& v.notes->Some_0.len() >= start.notes->Some_0.len()
            &&& v.failure is Some ==> v.failure == Some(Failure::ScanCancelled)
            &&& v.failure is None && v.notes->Some_0.len() == start.notes->Some_0.len()
                ==> v.notes == start.notes && strict == with_notes(v, None)
        }),
    decreases n,
{
    if n > 0 {
        lemma_resilient_pass(units, store, plan, n - 1, start, keep_partial, full);
    }
}

proof fn lemma_resilient_pass_of<A: AccessUnits, S: StreamStore>(
    units: A,
    store: S,
    stream: Option<DirEntry>,
    ssif: Option<DirEntry>,
    selection: Option<Seq<Seq<char>>>,
    playlists: Seq<PlaylistView>,
    notes: Seq<Note>,
    keep_partial: bool,
    full: bool,
    heard: Heard,
)
    ensures
        ({
            let v = pass_of(
                units,
                store,
                stream,
                ssif,
                selection,
                playlists,
                Some(notes),
                keep_partial,
                full,
                heard,
            );
            let strict = pass_of(
                units,
                store,
                stream,
                ssif,
                selection,
                playlists,
                None,
                keep_partial,
                full,
                heard,
            );
            &&& v.notes is Some
            &&& v.notes->Some_0.len() >= notes.len()
            &&& v.failure is Some ==> v.failure == Some(Failure::ScanCancelled)
            &&& v.failure is None && v.notes->Some_0.len() == notes.len() ==> v.notes == Some(
                notes,
            ) && strict == with_notes(v, None)
        }),
{
    let (plan, after) = plan_of(stream, ssif, selection, Some(notes));
    assert(plan is Ok && after is Some);
    assert(after->Some_0.len() == notes.len() ==> after == Some(notes) && plan_of(
        stream,
        ssif,
        selection,
        None,
    ) == (plan, None::<Seq<Note>>));
    lemma_resilient_pass(
        units,
        store,
        plan->Ok_0,
        plan->Ok_0.jobs.len() as int,
        PassView { playlists, notes: after, files: Seq::empty(), failure: None, heard },
        keep_partial,
        full,
    );
}

/// The start of the quick pass of a measurement, and that of its full one.
spec fn starts(
    maps: MapsView,
    selection: Option<Seq<Seq<char>>>,
    measure: bool,
    told: Seq<Event>,
) -> (Heard, Progress) {
    let total = capped(
        pass_bytes(
            maps.stream_files,
            maps.interleaved_files,
            selection,
            maps.stream_files.len() as int,
        ),
    );
    let observed = Progress { observed: true, done: 0, total };
    (
        Heard {
            progress: if measure {
                Progress { observed: false, done: 0, total: 0 }
            } else {
                observed
            },
            told,
        },
        observed,
    )
}

proof fn lemma_resilient_measurement<A: AccessUnits, S: StreamStore>(
    units: A,
    store: S,
    stream: Option<DirEntry>,
    ssif: Option<DirEntry>,
    selection: Option<Seq<Seq<char>>>,
    maps: MapsView,
    playlists: Seq<PlaylistView>,
    notes: Seq<Note>,
    measure: bool,
    keep_partial: bool,
    told: Seq<Event>,
)
    ensures
        ({
            let m = measured_by(
                units,
                store,
                stream,
                ssif,
                selection,
                maps,
                playlists,
                Some(notes),
                measure,
                keep_partial,
                told,
            );
            let strict = measured_by(
                units,
                store,
                stream,
                ssif,
                selection,
                maps,
                playlists,
                None,
                measure,
                keep_partial,
                told,
            );
            &&& m.notes is Some
            &&& m.notes->Some_0.len() >= notes.len()
            &&& m.failure is Some ==> m.failure == Some(Failure::ScanCancelled)
            &&& m.failure is None && m.notes->Some_0.len() == notes.len() ==> m.notes == Some(
                notes,
            ) && strict == measured_with(m, None)
        }),
{
    let (begin, observed) = starts(maps, selection, measure, told);
    lemma_resilient_pass_of(
        units,
        store,
        stream,
        ssif,
        selection,
        playlists,
        notes,
        keep_partial,
        false,
        begin,
    );
    let quick = pass_of(
        units,
        store,
        stream,
        ssif,
        selection,
        playlists,
        Some(notes),
        keep_partial,
        false,
        begin,
    );
    if quick.failure is None && measure {
        let ready = quick.playlists.map_values(
            |p: PlaylistView| prepared(p, maps.clip_files, maps.stream_files, quick.files),
        );
        lemma_resilient_pass_of(
            units,
            store,
            stream,
            ssif,
            selection,
            ready,
            quick.notes->Some_0,
            keep_partial,
            true,
            Heard { progress: observed, told: quick.heard.told },
        );
    }
}

/// A resilient scan gives a report wherever there is something to scan: it fails only over
/// a directory without which there is nothing, and where its reading was asked to stop.
pub proof fn lemma_resilient_scan_always_reports<T: StreamText, A: AccessUnits, S: StreamStore>(
    text: T,
    units: A,
    store: S,
    root: DirEntry,
    mode: ScanMode,
    keep_partial: bool,
    selection: Option<Seq<Seq<char>>>,
    notes: Seq<Note>,
    told: Seq<Event>,
)
    ensures
        ({
            let want = disc_of(
                text,
                units,
                store,
                root,
                mode,
                keep_partial,
                selection,
                Some(notes),
                told,
            );
            &&& want.notes is Some
            &&& match lacking(root) {
                Some(f) => want.disc == Err::<DiscView, Failure>(f),
                None => want.disc is Err ==> want.disc->Err_0 is ScanCancelled,
            }
        }),
{
    lemma_resilient_layout_fails_only_without_structure(root, notes);
    let (l, located) = layout_of(root, Some(notes));
    if l is Ok {
        let l = l->Ok_0;
        lemma_resilient_metadata_never_fails(root, l, located->Some_0);
        let (o, after) = opened_at(root, l, located);
        let o = o->Ok_0;
        if mode is Metadata {
            lemma_resilient_summaries_never_fail(
                text,
                o.playlists,
                0,
                o.maps.clip_files,
                o.maps.stream_files,
                o.maps.interleaved_files,
                Seq::empty(),
                Seq::empty(),
                (Seq::empty(), false),
                after->Some_0,
            );
        } else {
            lemma_resilient_measurement(
                units,
                store,
                l.stream,
                l.ssif,
                selection,
                o.maps,
                o.playlists,
                after->Some_0,
                mode is Full,
                keep_partial,
                told,
            );
            let m = measured_by(
                units,
                store,
                l.stream,
                l.ssif,
                selection,
                o.maps,
                o.playlists,
                after,
                mode is Full,
                keep_partial,
                told,
            );
            lemma_resilient_summaries_never_fail(
                text,
                m.playlists,
                0,
                o.maps.clip_files,
                o.maps.stream_files,
                o.maps.interleaved_files,
                m.quick,
                m.full,
                (Seq::empty(), false),
                m.notes->Some_0,
            );
        }
    }
}

// ---- a scan without notes ----

proof fn lemma_quiet_summaries<T: StreamText>(
    text: T,
    playlists: Seq<PlaylistView>,
    i: int,
    clip_files: Seq<(Seq<char>, ClipFileView)>,
    stream_files: Seq<(Seq<char>, u64)>,
    interleaved_files: Seq<(Seq<char>, u64)>,
    scanned: Seq<(Seq<char>, FileView)>,
    measured: Seq<(Seq<char>, FileView)>,
    so_far: (Seq<PlaylistSummaryView>, bool),
    notes: Seq<Note>,
)
    ensures
        quiet_is_strict(
            summaries_from(
                text,
                playlists,
                i,
                clip_files,
                stream_files,
                interleaved_files,
                scanned,
                measured,
                so_far,
                Some(notes),
            ),
            notes,
            summaries_from(
                text,
                playlists,
                i,
                clip_files,
                stream_files,
                interleaved_files,
                scanned,
                measured,
                so_far,
                None,
            ),
        ),
    decreases playlists.len() - i,
{
    if 0 <= i < playlists.len() {
        let p = playlists[i];
        match metas_of(p.clips, clip_files, stream_files, scanned, p.clips.len() as int) {
            Ok(metas) => {
                let (summary, hz) = summary_by(
                    text,
                    p,
                    metas,
                    stream_files,
                    interleaved_files,
                    measured,
                );
                lemma_quiet_summaries(
                    text,
                    playlists,
                    i + 1,
                    clip_files,
                    stream_files,
                    interleaved_files,
                    scanned,
                    measured,
                    (so_far.0.push(summary), so_far.1 || hz),
                    notes,
                );
            },
            Err(reason) => {
                let next = noted(Some(notes), ScanStage::Playlist, p.name, reason)->Some_0;
                lemma_quiet_summaries(
                    text,
                    playlists,
                    i + 1,
                    clip_files,
                    stream_files,
                    interleaved_files,
                    scanned,
                    measured,
                    so_far,
                    next,
                );
            },
        }
    }
}

/// A resilient scan that ends with a report and without an error to note has found what a
/// strict scan finds: that gives the same report, and tells its observer the same.
pub proof fn lemma_a_report_without_errors_is_the_strict_one<
    T: StreamText,
    A: AccessUnits,
    S: StreamStore,
>(
    text: T,
    units: A,
    store: S,
    root: DirEntry,
    mode: ScanMode,
    keep_partial: bool,
    selection: Option<Seq<Seq<char>>>,
    told: Seq<Event>,
)
    requires
        ({
            let resilient = disc_of(
                text,
                units,
                store,
                root,
                mode,
                keep_partial,
                selection,
                Some(Seq::empty()),
                told,
            );
            resilient.disc is Ok && resilient.notes == Some(Seq::<Note>::empty())
        }),
    ensures
        disc_of(text, units, store, root, mode, keep_partial, selection, None, told) == (
        ScanOutcome {
            notes: None,
            ..disc_of(
                text,
                units,
                store,
                root,
                mode,
                keep_partial,
                selection,
                Some(Seq::empty()),
                told,
            )
        }),
{
    let notes = Seq::<Note>::empty();
    let (l, located) = layout_of(root, Some(notes));
    let l = l->Ok_0;
    let n0 = located->Some_0;
    lemma_quiet_metadata_is_the_strict_one(root, l, n0);
    lemma_resilient_metadata_never_fails(root, l, n0);
    let (o, after) = opened_at(root, l, located);
    let o = o->Ok_0;
    let n1 = after->Some_0;
    if mode is Metadata {
        lemma_quiet_summaries(
            text,
            o.playlists,
            0,
            o.maps.clip_files,
            o.maps.stream_files,
            o.maps.interleaved_files,
            Seq::empty(),
            Seq::empty(),
            (Seq::empty(), false),
            n1,
        );
    } else {
        lemma_resilient_measurement(
            units,
            store,
            l.stream,
            l.ssif,
            selection,
            o.maps,
            o.playlists,
            n1,
            mode is Full,
            keep_partial,
            told,
        );
        let m = measured_by(
            units,
            store,
            l.stream,
            l.ssif,
            selection,
            o.maps,
            o.playlists,
            after,
            mode is Full,
            keep_partial,
            told,
        );
        lemma_quiet_summaries(
            text,
            m.playlists,
            0,
            o.maps.clip_files,
            o.maps.stream_files,
            o.maps.interleaved_files,
            m.quick,
            m.full,
            (Seq::empty(), false),
            m.notes->Some_0,
        );
    }
}

// ---- healthy discs ----

proof fn lemma_healthy_pass<A: AccessUnits, S: StreamStore>(
    units: A,
    store: S,
    plan: PlanView,
    n: int,
    start: PassView,
    keep_partial: bool,
    full: bool,
    notes: Seq<Note>,
)
    requires
        start.notes is None,
        pass_over(units, store, plan, n, start, keep_partial, full).failure is None,
    ensures
        pass_over(units, store, plan, n, start, keep_partial, full).notes is None,
        pass_over(
            units,
            store,
            plan,
            n,
            with_notes(start, Some(notes)),
            keep_partial,
            full,
        ) == with_notes(
            pass_over(units, store, plan, n, start, keep_partial, full),
            Some(notes),
        ),
    decreases n,
{
    if n > 0 {
        lemma_healthy_pass(units, store, plan, n - 1, start, keep_partial, full, notes);
    }
}

proof fn lemma_healthy_pass_of<A: AccessUnits, S: StreamStore>(
    units: A,
    store: S,
    stream: Option<DirEntry>,
    ssif: Option<DirEntry>,
    selection: Option<Seq<Seq<char>>>,
    playlists: Seq<PlaylistView>,
    keep_partial: bool,
    full: bool,
    heard: Heard,
    notes: Seq<Note>,
)
    requires
        pass_of(
            units,
            store,
            stream,
            ssif,
            selection,
            playlists,
            None,
            keep_partial,
            full,
            heard,
        ).failure is None,
    ensures
        ({
            let v = pass_of(
                units,
                store,
                stream,
                ssif,
                selection,
                playlists,
                None,
                keep_partial,
                full,
                heard,
            );
            &&& v.notes is None
            &&& pass_of(
                units,
                store,
                stream,
                ssif,
                selection,
                playlists,
                Some(notes),
                keep_partial,
                full,
                heard,
            ) == with_notes(v, Some(notes))
        }),
{
    let (plan, after) = plan_of(stream, ssif, selection, None);
    assert(plan_of(stream, ssif, selection, Some(notes)) == (plan, Some(notes)));
    assert(after is None);
    lemma_healthy_pass(
        units,
        store,
        plan->Ok_0,
        plan->Ok_0.jobs.len() as int,
        PassView { playlists, notes: None, files: Seq::empty(), failure: None, heard },
        keep_partial,
        full,
        notes,
    );
}

proof fn lemma_healthy_measurement<A: AccessUnits, S: StreamStore>(
    units: A,
    store: S,
    stream: Option<DirEntry>,
    ssif: Option<DirEntry>,
    selection: Option<Seq<Seq<char>>>,
    maps: MapsView,
    playlists: Seq<PlaylistView>,
    measure: bool,
    keep_partial: bool,
    told: Seq<Event>,
    notes: Seq<Note>,
)
    requires
        measured_by(
            units,
            store,
            stream,
            ssif,
            selection,
            maps,
            playlists,
            None,
            measure,
            keep_partial,
            told,
        ).failure is None,
    ensures
        ({
            let m = measured_by(
                units,
                store,
                stream,
                ssif,
                selection,
                maps,
                playlists,
                None,
                measure,
                keep_partial,
                told,
            );
            &&& m.notes is None
            &&& measured_by(
                units,
                store,
                stream,
                ssif,
                selection,
                maps,
                playlists,
                Some(notes),
                measure,
                keep_partial,
                told,
            ) == measured_with(m, Some(notes))
        }),
{
    let (begin, observed) = starts(maps, selection, measure, told);
    let quick = pass_of(
        units,
        store,
        stream,
        ssif,
        selection,
        playlists,
        None,
        keep_partial,
        false,
        begin,
    );
    lemma_healthy_pass_of(
        units,
        store,
        stream,
        ssif,
        selection,
        playlists,
        keep_partial,
        false,
        begin,
        notes,
    );
    if measure {
        let ready = quick.playlists.map_values(
            |p: PlaylistView| prepared(p, maps.clip_files, maps.stream_files, quick.files),
        );
        lemma_healthy_pass_of(
            units,
            store,
            stream,
            ssif,
            selection,
            ready,
            keep_partial,
            true,
            Heard { progress: observed, told: quick.heard.told },
            notes,
        );
    }
}

proof fn lemma_healthy_summaries<T: StreamText>(
    text: T,
    playlists: Seq<PlaylistView>,
    i: int,
    clip_files: Seq<(Seq<char>, ClipFileView)>,
    stream_files: Seq<(Seq<char>, u64)>,
    interleaved_files: Seq<(Seq<char>, u64)>,
    scanned: Seq<(Seq<char>, FileView)>,
    measured: Seq<(Seq<char>, FileView)>,
    so_far: (Seq<PlaylistSummaryView>, bool),
    notes: Seq<Note>,
)
    requires
        summaries_from(
            text,
            playlists,
            i,
            clip_files,
            stream_files,
            interleaved_files,
            scanned,
            measured,
            so_far,
            None,
        ).0 is Ok,
    ensures
        summaries_from(
            text,
            playlists,
            i,
            clip_files,
            stream_files,
            interleaved_files,
            scanned,
            measured,
            so_far,
            Some(notes),
        ) == (
            summaries_from(
                text,
                playlists,
                i,
                clip_files,
                stream_files,
                interleaved_files,
                scanned,
                measured,
                so_far,
                None,
            ).0,
            Some(notes),
        ),
    decreases playlists.len() - i,
{
    if 0 <= i < playlists.len() {
        let p = playlists[i];
        match metas_of(p.clips, clip_files, stream_files, scanned, p.clips.len() as int) {
            Ok(metas) => {
                let (summary, hz) = summary_by(
                    text,
                    p,
                    metas,
                    stream_files,
                    interleaved_files,
                    measured,
                );
                lemma_healthy_summaries(
                    text,
                    playlists,
                    i + 1,
                    clip_files,
                    stream_files,
                    interleaved_files,
                    scanned,
                    measured,
                    (so_far.0.push(summary), so_far.1 || hz),
                    notes,
                );
            },
            Err(_) => {},
        }
    }
}

/// On a disc that a strict scan reports on, a resilient scan gives the same report, notes
/// nothing and tells its observer the same. The two can differ only in what a strict scan
/// does not look at: an index without its tag and the listing of the backups.
pub proof fn lemma_resilient_scan_is_the_strict_one_on_a_healthy_disc<
    T: StreamText,
    A: AccessUnits,
    S: StreamStore,
>(
    text: T,
    units: A,
    store: S,
    root: DirEntry,
    mode: ScanMode,
    keep_partial: bool,
    selection: Option<Seq<Seq<char>>>,
    notes: Seq<Note>,
    told: Seq<Event>,
)
    requires
        disc_of(text, units, store, root, mode, keep_partial, selection, None, told).disc is Ok,
        index_in_order(layout_of(root, None).0->Ok_0.bdmv),
        backups_of(layout_of(root, None).0->Ok_0.bdmv) is Ok,
    ensures
        disc_of(text, units, store, root, mode, keep_partial, selection, Some(notes), told) == (
        ScanOutcome {
            notes: Some(notes),
            ..disc_of(text, units, store, root, mode, keep_partial, selection, None, told)
        }),
{
    let (l, located) = layout_of(root, None);
    assert(layout_of(root, Some(notes)) == (l, Some(notes)));
    assert(located is None);
    let l = l->Ok_0;
    lemma_resilient_metadata_is_the_strict_one_on_a_healthy_disc(root, l, notes);
    let o = opened_at(root, l, None).0->Ok_0;
    if mode is Metadata {
        lemma_healthy_summaries(
            text,
            o.playlists,
            0,
            o.maps.clip_files,
            o.maps.stream_files,
            o.maps.interleaved_files,
            Seq::empty(),
            Seq::empty(),
            (Seq::empty(), false),
            notes,
        );
    } else {
        let m = measured_by(
            units,
            store,
            l.stream,
            l.ssif,
            selection,
            o.maps,
            o.playlists,
            None,
            mode is Full,
            keep_partial,
            told,
        );
        lemma_healthy_measurement(
            units,
            store,
            l.stream,
            l.ssif,
            selection,
            o.maps,
            o.playlists,
            mode is Full,
            keep_partial,
            told,
            notes,
        );
        lemma_healthy_summaries(
            text,
            m.playlists,
            0,
            o.maps.clip_files,
            o.maps.stream_files,
            o.maps.interleaved_files,
            m.quick,
            m.full,
            (Seq::empty(), false),
            notes,
        );
    }
}

// ---- the order of the report ----

/// Whether two lists hold playlists of the same names, in the same places.
spec fn same_names(ps: Seq<PlaylistView>, qs: Seq<PlaylistView>) -> bool {
    &&& ps.len() == qs.len()
    &&& forall|k: int| 0 <= k < ps.len() ==> #[trigger] qs[k].name == ps[k].name
}

proof fn lemma_pass_keeps_names<A: AccessUnits, S: StreamStore>(
    units: A,
    store: S,
    plan: PlanView,
    n: int,
    start: PassView,
    keep_partial: bool,
    full: bool,
)
    ensures
        same_names(
            start.playlists,
            pass_over(units, store, plan, n, start, keep_partial, full).playlists,
        ),
    decreases n,
{
    if n > 0 {
        lemma_pass_keeps_names(units, store, plan, n - 1, start, keep_partial, full);
        let v = pass_over(units, store, plan, n - 1, start, keep_partial, full);
        let job = plan.jobs[n - 1];
        let file = plan.files[job.file];
        let (content, source) = match job.interleaved {
            Some(k) => (
                store.content(plan.interleaved[k], true, full),
                Some(upper(plan.interleaved[k].name@)),
            ),
            None => (store.content(file, false, full), None),
        };
        if let Ok((chunks, failure)) = content {
            let blank = blank_file(upper(file.name@), source);
            if v.playlists.len() > 0 {
                lemma_a_scan_leaves_other_playlists_alone(
                    units,
                    blank,
                    v.playlists,
                    0,
                    chunks,
                    failure,
                    full,
                );
            }
            let qs = outcome_of(units, blank, v.playlists, chunks, failure, full).playlists;
            assert forall|k: int| 0 <= k < v.playlists.len() implies #[trigger] qs[k].name
                == start.playlists[k].name by {
                lemma_a_scan_leaves_other_playlists_alone(
                    units,
                    blank,
                    v.playlists,
                    k,
                    chunks,
                    failure,
                    full,
                );
                assert(v.playlists[k].name == start.playlists[k].name);
            }
        }
    }
}

/// Whether summaries stand in ascending order of their names.
pub open spec fn report_in_name_order(playlists: Seq<PlaylistSummaryView>) -> bool {
    forall|a: int, b: int|
        #![trigger playlists[a], playlists[b]]
        0 <= a < b < playlists.len() ==> !before(playlists[b].name, playlists[a].name)
}

proof fn lemma_summaries_keep_order<T: StreamText>(
    text: T,
    playlists: Seq<PlaylistView>,
    i: int,
    clip_files: Seq<(Seq<char>, ClipFileView)>,
    stream_files: Seq<(Seq<char>, u64)>,
    interleaved_files: Seq<(Seq<char>, u64)>,
    scanned: Seq<(Seq<char>, FileView)>,
    measured: Seq<(Seq<char>, FileView)>,
    so_far: (Seq<PlaylistSummaryView>, bool),
    notes: Option<Seq<Note>>,
)
    requires
        0 <= i <= playlists.len(),
        in_name_order(playlists),
        report_in_name_order(so_far.0),
        forall|a: int, b: int|
            #![trigger so_far.0[a], playlists[b]]
            0 <= a < so_far.0.len() && i <= b < playlists.len() ==> !before(
                playlists[b].name,
                so_far.0[a].name,
            ),
    ensures
        match summaries_from(
            text,
            playlists,
            i,
            clip_files,
            stream_files,
            interleaved_files,
            scanned,
            measured,
            so_far,
            notes,
        ).0 {
            Ok((list, _)) => report_in_name_order(list),
            Err(_) => true,
        },
    decreases playlists.len() - i,
{
    if i < playlists.len() {
        let p = playlists[i];
        match metas_of(p.clips, clip_files, stream_files, scanned, p.clips.len() as int) {
            Ok(metas) => {
                let (summary, hz) = summary_by(
                    text,
                    p,
                    metas,
                    stream_files,
                    interleaved_files,
                    measured,
                );
                assert(summary.name == p.name);
                let next = so_far.0.push(summary);
                assert forall|a: int, b: int|
                    #![trigger next[a], playlists[b]]
                    0 <= a < next.len() && i + 1 <= b < playlists.len() implies !before(
                    playlists[b].name,
                    next[a].name,
                ) by {
                    if a == so_far.0.len() {
                        assert(!before(playlists[b].name, playlists[i].name));
                    } else {
                        assert(next[a] == so_far.0[a]);
                    }
                }
                assert forall|a: int, b: int|
                    #![trigger next[a], next[b]]
                    0 <= a < b < next.len() implies !before(next[b].name, next[a].name) by {
                    assert(next[a] == so_far.0[a]);
                    if b == so_far.0.len() {
                        assert(!before(playlists[i].name, so_far.0[a].name));
                    } else {
                        assert(next[b] == so_far.0[b]);
                    }
                }
                lemma_summaries_keep_order(
                    text,
                    playlists,
                    i + 1,
                    clip_files,
                    stream_files,
                    interleaved_files,
                    scanned,
                    measured,
                    (next, so_far.1 || hz),
                    notes,
                );
            },
            Err(reason) => {
                lemma_summaries_keep_order(
                    text,
                    playlists,
                    i + 1,
                    clip_files,
                    stream_files,
                    interleaved_files,
                    scanned,
                    measured,
                    so_far,
                    noted(notes, ScanStage::Playlist, p.name, reason),
                );
            },
        }
    }
}

proof fn lemma_measurement_keeps_order<A: AccessUnits, S: StreamStore>(
    units: A,
    store: S,
    stream: Option<DirEntry>,
    ssif: Option<DirEntry>,
    selection: Option<Seq<Seq<char>>>,
    maps: MapsView,
    playlists: Seq<PlaylistView>,
    notes: Option<Seq<Note>>,
    measure: bool,
    keep_partial: bool,
    told: Seq<Event>,
)
    requires
        in_name_order(playlists),
    ensures
        ({
            let m = measured_by(
                units,
                store,
                stream,
                ssif,
                selection,
                maps,
                playlists,
                notes,
                measure,
                keep_partial,
                told,
            );
            m.failure is None ==> in_name_order(m.playlists)
        }),
{
    let (begin, observed) = starts(maps, selection, measure, told);
    let (plan, after) = plan_of(stream, ssif, selection, notes);
    let start = PassView {
        playlists,
        notes: after,
        files: Seq::empty(),
        failure: None,
        heard: begin,
    };
    let quick = pass_of(
        units,
        store,
        stream,
        ssif,
        selection,
        playlists,
        notes,
        keep_partial,
        false,
        begin,
    );
    if quick.failure is None {
        let jobs = plan->Ok_0.jobs.len() as int;
        lemma_pass_keeps_names(units, store, plan->Ok_0, jobs, start, keep_partial, false);
        assert(same_names(playlists, quick.playlists));
        let ready = quick.playlists.map_values(
            |p: PlaylistView| prepared(p, maps.clip_files, maps.stream_files, quick.files),
        );
        assert(same_names(quick.playlists, ready));
        assert(same_names(playlists, ready)) by {
            assert forall|k: int| 0 <= k < playlists.len() implies #[trigger] ready[k].name
                == playlists[k].name by {
                assert(quick.playlists[k].name == playlists[k].name);
            }
        }
        if measure {
            let (plan2, after2) = plan_of(stream, ssif, selection, quick.notes);
            let start2 = PassView {
                playlists: ready,
                notes: after2,
                files: Seq::empty(),
                failure: None,
                heard: Heard { progress: observed, told: quick.heard.told },
            };
            let full = pass_of(
                units,
                store,
                stream,
                ssif,
                selection,
                ready,
                quick.notes,
                keep_partial,
                true,
                Heard { progress: observed, told: quick.heard.told },
            );
            if full.failure is None {
                let jobs2 = plan2->Ok_0.jobs.len() as int;
                let next = plan2->Ok_0;
                lemma_pass_keeps_names(units, store, next, jobs2, start2, keep_partial, true);
                let done = full.playlists.map_values(
                    |p: PlaylistView| refreshed(p, maps.clip_files, maps.stream_files, full.files),
                );
                assert(same_names(playlists, done)) by {
                    assert forall|k: int| 0 <= k < playlists.len() implies #[trigger] done[k].name
                        == playlists[k].name by {
                        assert(full.playlists[k].name == ready[k].name);
                        assert(ready[k].name == playlists[k].name);
                    }
                }
            }
        }
    }
}

/// A report lists its playlists in ascending order of their names, whatever the order of the
/// directory, and whatever failed on the way.
pub proof fn lemma_the_report_is_sorted<T: StreamText, A: AccessUnits, S: StreamStore>(
    text: T,
    units: A,
    store: S,
    root: DirEntry,
    mode: ScanMode,
    keep_partial: bool,
    selection: Option<Seq<Seq<char>>>,
    notes: Option<Seq<Note>>,
    told: Seq<Event>,
)
    ensures
        match disc_of(
            text,
            units,
            store,
            root,
            mode,
            keep_partial,
            selection,
            notes,
            told,
        ).disc {
            Ok(disc) => report_in_name_order(disc.playlists),
            Err(_) => true,
        },
{
    if let (Ok(l), located) = layout_of(root, notes) {
        lemma_opened_playlists_are_sorted(root, l, located);
        if let (Ok(o), after) = opened_at(root, l, located) {
            let m = if mode is Metadata {
                MeasureView {
                    playlists: o.playlists,
                    notes: after,
                    quick: Seq::empty(),
                    full: Seq::empty(),
                    failure: None,
                    told,
                }
            } else {
                measured_by(
                    units,
                    store,
                    l.stream,
                    l.ssif,
                    selection,
                    o.maps,
                    o.playlists,
                    after,
                    mode is Full,
                    keep_partial,
                    told,
                )
            };
            if !(mode is Metadata) {
                lemma_measurement_keeps_order(
                    units,
                    store,
                    l.stream,
                    l.ssif,
                    selection,
                    o.maps,
                    o.playlists,
                    after,
                    mode is Full,
                    keep_partial,
                    told,
                );
            }
            if m.failure is None {
                lemma_summaries_keep_order(
                    text,
                    m.playlists,
                    0,
                    o.maps.clip_files,
                    o.maps.stream_files,
                    o.maps.interleaved_files,
                    m.quick,
                    m.full,
                    (Seq::empty(), false),
                    m.notes,
                );
            }
        }
    }
}

/// A metadata scan reads no packets: no stream file, codec or selection makes a difference
/// to its report, and its observer is told nothing.
pub proof fn lemma_metadata_scan_reads_no_packets<
    T: StreamText,
    A: AccessUnits,
    S: StreamStore,
    B: AccessUnits,
    R: StreamStore,
>(
    text: T,
    units: A,
    store: S,
    other_units: B,
    other_store: R,
    root: DirEntry,
    keep_partial: bool,
    other_keep: bool,
    selection: Option<Seq<Seq<char>>>,
    other_selection: Option<Seq<Seq<char>>>,
    notes: Option<Seq<Note>>,
    told: Seq<Event>,
)
    ensures
        disc_of(text, units, store, root, ScanMode::Metadata, keep_partial, selection, notes, told)
            == disc_of(
            text,
            other_units,
            other_store,
            root,
            ScanMode::Metadata,
            other_keep,
            other_selection,
            notes,
            told,
        ),
        disc_of(
            text,
            units,
            store,
            root,
            ScanMode::Metadata,
            keep_partial,
            selection,
            notes,
            told,
        ).told == told,
{
}

/// A scan without the full pass leaves nothing measured in any clip, whatever the quick pass
/// has counted on its way.
pub proof fn lemma_quick_pass_measures_no_clip<A: AccessUnits, S: StreamStore>(
    units: A,
    store: S,
    stream: Option<DirEntry>,
    ssif: Option<DirEntry>,
    selection: Option<Seq<Seq<char>>>,
    maps: MapsView,
    playlists: Seq<PlaylistView>,
    notes: Option<Seq<Note>>,
    keep_partial: bool,
    told: Seq<Event>,
    i: int,
    k: int,
)
    requires
        ({
            let m = measured_by(
                units,
                store,
                stream,
                ssif,
                selection,
                maps,
                playlists,
                notes,
                false,
                keep_partial,
                told,
            );
            m.failure is None && 0 <= i < m.playlists.len() && 0 <= k
                < m.playlists[i].clips.len()
        }),
    ensures
        ({
            let m = measured_by(
                units,
                store,
                stream,
                ssif,
                selection,
                maps,
                playlists,
                notes,
                false,
                keep_partial,
                told,
            );
            let clip = m.playlists[i].clips[k];
            clip.payload_bytes == 0 && clip.packet_count == 0 && clip.packet_ticks == 0
        }),
{
}

proof fn lemma_none_scannable(chain: Seq<DirEntry>, i: int)
    requires
        0 <= i,
        forall|k: int| 0 <= k < chain.len() ==> !scannable(#[trigger] chain[k]),
    ensures
        first_scannable(chain, i) is None,
    decreases chain.len() - i,
{
    if i < chain.len() && i <= MAX_BDMV_ANCESTORS {
        lemma_none_scannable(chain, i + 1);
    }
}

/// A directory is the root of its disc unless it, or one above it, is a `BDMV` directory
/// that a scan can start from: one that has no more than the name leads nowhere else.
pub proof fn lemma_a_mere_name_leads_nowhere(chain: Seq<DirEntry>)
    requires
        chain.len() > 0,
        forall|k: int| 0 <= k < chain.len() ==> !scannable(#[trigger] chain[k]),
    ensures
        root_of(chain) == chain[0],
{
    lemma_none_scannable(chain, 0);
}

} // verus!
