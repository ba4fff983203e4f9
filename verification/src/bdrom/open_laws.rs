//! What holds of every opening of a disc, whatever is on it.

use vstd::prelude::*;

use super::catalog::{
    after_reading, clip_backup, clip_file_in, clips_from, listing_step, maps_of, name_order,
    opened_at, playlist_backup, playlist_in, playlists_from, recovered, sizes_step, slot_for,
    summaries_from,
};
use super::clpi::ClipFileView;
use super::disc::PlaylistSummaryView;
use super::discovery::{is_kind, BdFileKind, DirEntry, FileEntry};
use super::m2ts::FileView;
use super::mpls::PlaylistView;
use super::open::{
    backups_of, index_bytes, index_tagged, lacking, layout_of, level_of, level_rest, listed,
    stand_in, usable_backups, LayoutView,
};
use super::present::StreamText;
use super::resolve::metas_of;
use crate::error::{Failure, Note};
use crate::text::{before, before_from, upper};

verus! {

proof fn lemma_clips_never_fail(
    files: Seq<FileEntry>,
    i: int,
    pool: Seq<FileEntry>,
    table: Seq<(Seq<char>, ClipFileView)>,
    notes: Seq<Note>,
)
    ensures
        clips_from(files, i, pool, table, Some(notes)).0 is Ok,
        clips_from(files, i, pool, table, Some(notes)).1 is Some,
    decreases files.len() - i,
{
    if 0 <= i < files.len() {
        if !is_kind(files[i].name@, BdFileKind::ClipInfo) {
            lemma_clips_never_fail(files, i + 1, pool, table, notes);
        } else {
            let name = files[i].name@;
            let primary = clip_file_in(files[i]);
            let after = after_reading(
                primary,
                Some(notes),
                crate::error::ScanStage::ClipInfo,
                name,
            );
            match recovered(primary, clip_backup(pool, name), Some(notes)) {
                Err(_) => {},
                Ok(Some(v)) => {
                    lemma_clips_never_fail(
                        files,
                        i + 1,
                        pool,
                        crate::names::put(table, upper(name), v),
                        after->Some_0,
                    );
                },
                Ok(None) => {
                    lemma_clips_never_fail(files, i + 1, pool, table, after->Some_0);
                },
            }
        }
    }
}

proof fn lemma_playlists_never_fail(
    files: Seq<FileEntry>,
    order: Seq<int>,
    k: int,
    pool: Seq<FileEntry>,
    parsed: Seq<PlaylistView>,
    notes: Seq<Note>,
)
    ensures
        playlists_from(files, order, k, pool, parsed, Some(notes)).0 is Ok,
        playlists_from(files, order, k, pool, parsed, Some(notes)).1 is Some,
    decreases order.len() - k,
{
    if 0 <= k < order.len() {
        let file = files[order[k]];
        let primary = playlist_in(file);
        let after = after_reading(
            primary,
            Some(notes),
            crate::error::ScanStage::Playlist,
            file.name@,
        );
        match recovered(primary, playlist_backup(pool, file.name@), Some(notes)) {
            Err(_) => {},
            Ok(Some(p)) => {
                lemma_playlists_never_fail(
                    files,
                    order,
                    k + 1,
                    pool,
                    parsed.push(p),
                    after->Some_0,
                );
            },
            Ok(None) => {
                lemma_playlists_never_fail(files, order, k + 1, pool, parsed, after->Some_0);
            },
        }
    }
}

proof fn lemma_level_never_fails(
    root: DirEntry,
    l: LayoutView,
    index: Seq<FileEntry>,
    notes: Seq<Note>,
)
    ensures
        level_of(root, l, index, Some(notes)).0 is Ok,
        level_of(root, l, index, Some(notes)).1 is Some,
{
}

/// A resilient scan reads the metadata of every disc whose directories are known.
pub proof fn lemma_resilient_metadata_never_fails(root: DirEntry, l: LayoutView, notes: Seq<Note>)
    ensures
        opened_at(root, l, Some(notes)).0 is Ok,
        opened_at(root, l, Some(notes)).1 is Some,
{
    let (backups, n1) = usable_backups(l.bdmv, Some(notes));
    lemma_level_never_fails(root, l, backups.index, n1->Some_0);
    let (level, n2) = level_of(root, l, backups.index, n1);
    let (streams, m1) = sizes_step(l.stream, "STREAM"@, BdFileKind::Stream, n2);
    let (ssif, m2) = sizes_step(l.ssif, "SSIF"@, BdFileKind::Interleaved, m1);
    let (files, m3) = listing_step(l.clipinf, m2);
    lemma_clips_never_fail(files->Ok_0, 0, backups.clipinf, Seq::empty(), m3->Some_0);
    let (maps, n3) = maps_of(l, backups.clipinf, n2);
    assert(maps is Ok && n3 is Some);
    let (found, n4) = listing_step(l.playlist, n3);
    lemma_playlists_never_fail(
        found->Ok_0,
        name_order(found->Ok_0, found->Ok_0.len() as int),
        0,
        backups.playlist,
        Seq::empty(),
        n4->Some_0,
    );
}

/// A resilient scan finds the directories of a disc unless it has no `BDMV` with a `CLIPINF`
/// and a `PLAYLIST` in it, or these cannot be looked for.
pub proof fn lemma_resilient_layout_fails_only_without_structure(root: DirEntry, notes: Seq<Note>)
    ensures
        match lacking(root) {
            Some(f) => layout_of(root, Some(notes)).0 == Err::<LayoutView, Failure>(f),
            None => layout_of(root, Some(notes)).0 is Ok,
        },
        layout_of(root, Some(notes)).1 is Some,
{
}

proof fn lemma_clips_agree(
    files: Seq<FileEntry>,
    i: int,
    pool: Seq<FileEntry>,
    table: Seq<(Seq<char>, ClipFileView)>,
    notes: Seq<Note>,
)
    requires
        clips_from(files, i, Seq::empty(), table, None).0 is Ok,
    ensures
        clips_from(files, i, pool, table, Some(notes)) == (
            clips_from(files, i, Seq::empty(), table, None).0,
            Some(notes),
        ),
    decreases files.len() - i,
{
    if 0 <= i < files.len() {
        if !is_kind(files[i].name@, BdFileKind::ClipInfo) {
            lemma_clips_agree(files, i + 1, pool, table, notes);
        } else {
            match clip_file_in(files[i]) {
                Ok(v) => {
                    lemma_clips_agree(
                        files,
                        i + 1,
                        pool,
                        crate::names::put(table, upper(files[i].name@), v),
                        notes,
                    );
                },
                Err(_) => {},
            }
        }
    }
}

proof fn lemma_playlists_agree(
    files: Seq<FileEntry>,
    order: Seq<int>,
    k: int,
    pool: Seq<FileEntry>,
    parsed: Seq<PlaylistView>,
    notes: Seq<Note>,
)
    requires
        playlists_from(files, order, k, Seq::empty(), parsed, None).0 is Ok,
    ensures
        playlists_from(files, order, k, pool, parsed, Some(notes)) == (
            playlists_from(files, order, k, Seq::empty(), parsed, None).0,
            Some(notes),
        ),
    decreases order.len() - k,
{
    if 0 <= k < order.len() {
        match playlist_in(files[order[k]]) {
            Ok(p) => {
                lemma_playlists_agree(files, order, k + 1, pool, parsed.push(p), notes);
            },
            Err(_) => {},
        }
    }
}

/// Whether a disc's index needs no word: there is none, or it has its tag.
pub open spec fn index_in_order(bdmv: DirEntry) -> bool {
    match index_bytes(bdmv) {
        Ok(Some(bytes)) => index_tagged(bytes),
        Ok(None) => true,
        Err(_) => false,
    }
}

proof fn lemma_level_agrees(
    root: DirEntry,
    l: LayoutView,
    index: Seq<FileEntry>,
    notes: Seq<Note>,
)
    requires
        index_in_order(l.bdmv),
        level_of(root, l, Seq::empty(), None).0 is Ok,
    ensures
        level_of(root, l, index, Some(notes)) == (
            level_of(root, l, Seq::empty(), None).0,
            Some(notes),
        ),
{
}

/// Where a strict scan reads the metadata of a disc, a resilient scan reads the same and
/// notes nothing. The two can differ only in what a strict scan does not look at: an index
/// without its tag and the listing of the backups.
pub proof fn lemma_resilient_metadata_is_the_strict_one_on_a_healthy_disc(
    root: DirEntry,
    l: LayoutView,
    notes: Seq<Note>,
)
    requires
        opened_at(root, l, None).0 is Ok,
        index_in_order(l.bdmv),
        backups_of(l.bdmv) is Ok,
    ensures
        opened_at(root, l, Some(notes)) == (opened_at(root, l, None).0, Some(notes)),
        opened_at(root, l, None).1 is None,
{
    let backups = backups_of(l.bdmv)->Ok_0;
    assert(usable_backups(l.bdmv, Some(notes)) == (backups, Some(notes)));
    lemma_level_agrees(root, l, backups.index, notes);
    let n2: Option<Seq<Note>> = None;
    let (level, _) = level_of(root, l, Seq::empty(), None);
    let (streams, m1) = sizes_step(l.stream, "STREAM"@, BdFileKind::Stream, n2);
    let (ssif, m2) = sizes_step(l.ssif, "SSIF"@, BdFileKind::Interleaved, n2);
    assert(maps_of(l, Seq::empty(), n2).0 is Ok);
    let files = listed(l.clipinf)->Ok_0;
    lemma_clips_agree(files, 0, backups.clipinf, Seq::empty(), notes);
    assert(maps_of(l, backups.clipinf, Some(notes)) == (
        maps_of(l, Seq::empty(), n2).0,
        Some(notes),
    ));
    let found = listed(l.playlist)->Ok_0;
    lemma_strict_clips_take_no_notes(files, 0, Seq::empty(), Seq::empty());
    lemma_strict_playlists_take_no_notes(
        found,
        name_order(found, found.len() as int),
        0,
        Seq::empty(),
        Seq::empty(),
    );
    lemma_playlists_agree(
        found,
        name_order(found, found.len() as int),
        0,
        backups.playlist,
        Seq::empty(),
        notes,
    );
}

proof fn lemma_strict_clips_take_no_notes(
    files: Seq<FileEntry>,
    i: int,
    pool: Seq<FileEntry>,
    table: Seq<(Seq<char>, ClipFileView)>,
)
    ensures
        clips_from(files, i, pool, table, None).1 is None,
    decreases files.len() - i,
{
    if 0 <= i < files.len() {
        if !is_kind(files[i].name@, BdFileKind::ClipInfo) {
            lemma_strict_clips_take_no_notes(files, i + 1, pool, table);
        } else {
            match clip_file_in(files[i]) {
                Ok(v) => {
                    lemma_strict_clips_take_no_notes(
                        files,
                        i + 1,
                        pool,
                        crate::names::put(table, upper(files[i].name@), v),
                    );
                },
                Err(_) => {},
            }
        }
    }
}

proof fn lemma_strict_playlists_take_no_notes(
    files: Seq<FileEntry>,
    order: Seq<int>,
    k: int,
    pool: Seq<FileEntry>,
    parsed: Seq<PlaylistView>,
)
    ensures
        playlists_from(files, order, k, pool, parsed, None).1 is None,
    decreases order.len() - k,
{
    if 0 <= k < order.len() {
        match playlist_in(files[order[k]]) {
            Ok(p) => {
                lemma_strict_playlists_take_no_notes(files, order, k + 1, pool, parsed.push(p));
            },
            Err(_) => {},
        }
    }
}

// ---- no notes ----

/// Whether a resilient step, which had `notes` before it, has taken none back, and without a
/// new one has given what the strict step gives.
pub open spec fn quiet_is_strict<T>(
    resilient: (Result<T, Failure>, Option<Seq<Note>>),
    notes: Seq<Note>,
    strict: (Result<T, Failure>, Option<Seq<Note>>),
) -> bool {
    &&& resilient.1 is Some
    &&& resilient.1->Some_0.len() >= notes.len()
    &&& resilient.1->Some_0.len() == notes.len() ==> resilient.1 == Some(notes) && strict == (
        resilient.0,
        None::<Seq<Note>>,
    )
}

proof fn lemma_quiet_clips(
    files: Seq<FileEntry>,
    i: int,
    pool: Seq<FileEntry>,
    table: Seq<(Seq<char>, ClipFileView)>,
    notes: Seq<Note>,
)
    ensures
        quiet_is_strict(
            clips_from(files, i, pool, table, Some(notes)),
            notes,
            clips_from(files, i, Seq::empty(), table, None),
        ),
    decreases files.len() - i,
{
    if 0 <= i < files.len() {
        if !is_kind(files[i].name@, BdFileKind::ClipInfo) {
            lemma_quiet_clips(files, i + 1, pool, table, notes);
        } else {
            let name = files[i].name@;
            let primary = clip_file_in(files[i]);
            let after = after_reading(
                primary,
                Some(notes),
                crate::error::ScanStage::ClipInfo,
                name,
            )->Some_0;
            match recovered(primary, clip_backup(pool, name), Some(notes)) {
                Err(_) => {},
                Ok(Some(v)) => {
                    lemma_quiet_clips(
                        files,
                        i + 1,
                        pool,
                        crate::names::put(table, upper(name), v),
                        after,
                    );
                },
                Ok(None) => {
                    lemma_quiet_clips(files, i + 1, pool, table, after);
                },
            }
        }
    }
}

proof fn lemma_quiet_playlists(
    files: Seq<FileEntry>,
    order: Seq<int>,
    k: int,
    pool: Seq<FileEntry>,
    parsed: Seq<PlaylistView>,
    notes: Seq<Note>,
)
    ensures
        quiet_is_strict(
            playlists_from(files, order, k, pool, parsed, Some(notes)),
            notes,
            playlists_from(files, order, k, Seq::empty(), parsed, None),
        ),
    decreases order.len() - k,
{
    if 0 <= k < order.len() {
        let file = files[order[k]];
        let primary = playlist_in(file);
        let after = after_reading(
            primary,
            Some(notes),
            crate::error::ScanStage::Playlist,
            file.name@,
        )->Some_0;
        match recovered(primary, playlist_backup(pool, file.name@), Some(notes)) {
            Err(_) => {},
            Ok(Some(p)) => {
                lemma_quiet_playlists(files, order, k + 1, pool, parsed.push(p), after);
            },
            Ok(None) => {
                lemma_quiet_playlists(files, order, k + 1, pool, parsed, after);
            },
        }
    }
}

proof fn lemma_quiet_rest(
    root: DirEntry,
    l: LayoutView,
    sizes: (u64, u64),
    is_uhd: bool,
    notes: Seq<Note>,
)
    ensures
        quiet_is_strict(
            level_rest(root, l, sizes, is_uhd, Some(notes)),
            notes,
            level_rest(root, l, sizes, is_uhd, None),
        ),
{
}

proof fn lemma_quiet_level(root: DirEntry, l: LayoutView, index: Seq<FileEntry>, notes: Seq<Note>)
    ensures
        quiet_is_strict(
            level_of(root, l, index, Some(notes)),
            notes,
            level_of(root, l, Seq::empty(), None),
        ),
{
    assert forall|sizes: (u64, u64), is_uhd: bool, n: Seq<Note>| quiet_is_strict(
        #[trigger] level_rest(root, l, sizes, is_uhd, Some(n)),
        n,
        level_rest(root, l, sizes, is_uhd, None),
    ) by {
        lemma_quiet_rest(root, l, sizes, is_uhd, n);
    }
}

/// Where a resilient scan reads the metadata of a disc and notes nothing, a strict scan reads
/// the same.
pub proof fn lemma_quiet_metadata_is_the_strict_one(root: DirEntry, l: LayoutView, notes: Seq<Note>)
    ensures
        quiet_is_strict(opened_at(root, l, Some(notes)), notes, opened_at(root, l, None)),
{
    let (backups, n1) = usable_backups(l.bdmv, Some(notes));
    lemma_quiet_level(root, l, backups.index, n1->Some_0);
    let (level, n2) = level_of(root, l, backups.index, n1);
    lemma_level_never_fails(root, l, backups.index, n1->Some_0);
    let (streams, m1) = sizes_step(l.stream, "STREAM"@, BdFileKind::Stream, n2);
    let (ssif, m2) = sizes_step(l.ssif, "SSIF"@, BdFileKind::Interleaved, m1);
    let (files, m3) = listing_step(l.clipinf, m2);
    lemma_quiet_clips(files->Ok_0, 0, backups.clipinf, Seq::empty(), m3->Some_0);
    lemma_clips_never_fail(files->Ok_0, 0, backups.clipinf, Seq::empty(), m3->Some_0);
    let (maps, n3) = maps_of(l, backups.clipinf, n2);
    assert(n3->Some_0.len() >= n2->Some_0.len());
    assert(n3->Some_0.len() == n2->Some_0.len() ==> n3 == n2 && maps_of(l, Seq::empty(), None) == (
        maps,
        None::<Seq<Note>>,
    ));
    let (found, n4) = listing_step(l.playlist, n3);
    lemma_quiet_playlists(
        found->Ok_0,
        name_order(found->Ok_0, found->Ok_0.len() as int),
        0,
        backups.playlist,
        Seq::empty(),
        n4->Some_0,
    );
}

/// A resilient scan summarises what it can: it never fails over a playlist.
pub proof fn lemma_resilient_summaries_never_fail<T: StreamText>(
    text: T,
    playlists: Seq<PlaylistView>,
    i: int,
    clip_files: Seq<(Seq<char>, ClipFileView)>,
    stream_files: Seq<(Seq<char>, u64)>,
    interleaved_files: Seq<(Seq<char>, u64)>,
    scanned: Seq<(Seq<char>, FileView)>,
    measured: Seq<(Seq<char>, FileView)>,
    so_far: (Seq<PlaylistSummaryView>, bool),
    notes: Seq<Note>,
)
    ensures
        summaries_from(
            text,
            playlists,
            i,
            clip_files,
            stream_files,
            interleaved_files,
            scanned,
            measured,
            so_far,
            Some(notes),
        ).0 is Ok,
        summaries_from(
            text,
            playlists,
            i,
            clip_files,
            stream_files,
            interleaved_files,
            scanned,
            measured,
            so_far,
            Some(notes),
        ).1 is Some,
    decreases playlists.len() - i,
{
    if 0 <= i < playlists.len() {
        let p = playlists[i];
        match metas_of(p.clips, clip_files, stream_files, scanned, p.clips.len() as int) {
            Ok(metas) => {
                let (summary, hz) = super::summarise::summary_by(
                    text,
                    p,
                    metas,
                    stream_files,
                    interleaved_files,
                    measured,
                );
                lemma_resilient_summaries_never_fail(
                    text,
                    playlists,
                    i + 1,
                    clip_files,
                    stream_files,
                    interleaved_files,
                    scanned,
                    measured,
                    (so_far.0.push(summary), so_far.1 || hz),
                    notes,
                );
            },
            Err(f) => {
                let after = super::sink::noted(
                    Some(notes),
                    crate::error::ScanStage::Playlist,
                    p.name,
                    f,
                );
                lemma_resilient_summaries_never_fail(
                    text,
                    playlists,
                    i + 1,
                    clip_files,
                    stream_files,
                    interleaved_files,
                    scanned,
                    measured,
                    so_far,
                    after->Some_0,
                );
            },
        }
    }
}

// ---- the order of the playlists ----

proof fn lemma_slot_range(files: Seq<FileEntry>, order: Seq<int>, key: Seq<char>, k: int)
    requires
        0 <= k <= order.len(),
    ensures
        k <= slot_for(files, order, key, k) <= order.len(),
        forall|j: int|
            k <= j < slot_for(files, order, key, k) ==> !before(
                key,
                upper(files[#[trigger] order[j]].name@),
            ),
        slot_for(files, order, key, k) < order.len() ==> before(
            key,
            upper(files[order[slot_for(files, order, key, k)]].name@),
        ),
    decreases order.len() - k,
{
    if k < order.len() && !before(key, upper(files[order[k]].name@)) {
        lemma_slot_range(files, order, key, k + 1);
    }
}

/// Two texts do not both come before each other.
pub proof fn lemma_before_is_asymmetric(a: Seq<char>, b: Seq<char>, i: int)
    requires
        0 <= i,
    ensures
        !(before_from(a, b, i) && before_from(b, a, i)),
    decreases a.len() - i,
{
    if i < a.len() && i < b.len() && a[i] == b[i] {
        lemma_before_is_asymmetric(a, b, i + 1);
    }
}

/// The order among texts carries over.
pub proof fn lemma_before_is_transitive(a: Seq<char>, b: Seq<char>, c: Seq<char>, i: int)
    requires
        0 <= i,
        before_from(a, b, i),
        before_from(b, c, i),
    ensures
        before_from(a, c, i),
    decreases a.len() - i,
{
    if i < a.len() && i < b.len() && i < c.len() && a[i] == b[i] && b[i] == c[i] {
        lemma_before_is_transitive(a, b, c, i + 1);
    }
}

proof fn lemma_before_or_not(a: Seq<char>, b: Seq<char>, c: Seq<char>, i: int)
    requires
        0 <= i,
        !before_from(b, a, i),
        !before_from(c, b, i),
    ensures
        !before_from(c, a, i),
    decreases a.len() - i,
{
    if i < a.len() && i < b.len() && i < c.len() && a[i] == b[i] && b[i] == c[i] {
        lemma_before_or_not(a, b, c, i + 1);
    }
}

/// Whether files stand in ascending order of their upper-cased names.
pub open spec fn ascending(files: Seq<FileEntry>, order: Seq<int>) -> bool {
    forall|a: int, b: int|
        #![trigger order[a], order[b]]
        0 <= a < b < order.len() ==> !before(
            upper(files[order[b]].name@),
            upper(files[order[a]].name@),
        )
}

/// The playlists stand in ascending order of their upper-cased names, and every playlist
/// file stands there.
pub proof fn lemma_playlists_are_sorted(files: Seq<FileEntry>, n: int)
    requires
        0 <= n <= files.len(),
    ensures
        ascending(files, name_order(files, n)),
        forall|i: int|
            0 <= i < n && is_kind(#[trigger] files[i].name@, BdFileKind::Playlist) ==> name_order(
                files,
                n,
            ).contains(i),
        forall|k: int|
            #![trigger name_order(files, n)[k]]
            0 <= k < name_order(files, n).len() ==> {
                &&& 0 <= name_order(files, n)[k] < n
                &&& is_kind(files[name_order(files, n)[k]].name@, BdFileKind::Playlist)
            },
    decreases n,
{
    if n > 0 {
        lemma_playlists_are_sorted(files, n - 1);
        let order = name_order(files, n - 1);
        let now = name_order(files, n);
        if is_kind(files[n - 1].name@, BdFileKind::Playlist) {
            let key = upper(files[n - 1].name@);
            let s = slot_for(files, order, key, 0);
            lemma_slot_range(files, order, key, 0);
            assert(now == order.insert(s, n - 1));
            assert forall|a: int, b: int|
                #![trigger now[a], now[b]]
                0 <= a < b < now.len() implies !before(
                upper(files[now[b]].name@),
                upper(files[now[a]].name@),
            ) by {
                let oa = if a < s {
                    a
                } else {
                    a - 1
                };
                let ob = if b < s {
                    b
                } else {
                    b - 1
                };
                if a == s {
                    assert(now[a] == n - 1);
                    assert(now[b] == order[ob]);
                    // The new file comes before the one it displaced, and so before all
                    // that follow.
                    let head = upper(files[order[s]].name@);
                    let other = upper(files[order[ob]].name@);
                    assert(before(key, head));
                    if ob > s {
                        assert(!before(
                            upper(files[order[ob]].name@),
                            upper(files[order[s]].name@),
                        ));
                        lemma_before_is_asymmetric(key, head, 0);
                        lemma_before_or_not(key, head, other, 0);
                    } else {
                        lemma_before_is_asymmetric(key, other, 0);
                    }
                } else if b == s {
                    assert(now[b] == n - 1);
                    assert(now[a] == order[oa]);
                } else {
                    assert(now[a] == order[oa]);
                    assert(now[b] == order[ob]);
                }
            }
            assert forall|i: int|
                0 <= i < n && is_kind(
                    #[trigger] files[i].name@,
                    BdFileKind::Playlist,
                ) implies now.contains(i) by {
                if i == n - 1 {
                    assert(now[s] == i);
                } else {
                    assert(order.contains(i));
                    let k = choose|k: int| 0 <= k < order.len() && order[k] == i;
                    if k < s {
                        assert(now[k] == i);
                    } else {
                        assert(now[k + 1] == i);
                    }
                }
            }
            assert forall|k: int| #![trigger now[k]] 0 <= k < now.len() implies {
                &&& 0 <= now[k] < n
                &&& is_kind(files[now[k]].name@, BdFileKind::Playlist)
            } by {
                if k < s {
                    assert(now[k] == order[k]);
                } else if k > s {
                    assert(now[k] == order[k - 1]);
                }
            }
        }
    }
}

proof fn lemma_stand_in_has_the_name(pool: Seq<FileEntry>, name: Seq<char>, n: int)
    ensures
        match stand_in(pool, name, n) {
            Some(f) => upper(f.name@) == upper(name),
            None => true,
        },
    decreases n,
{
    if n > 0 {
        lemma_stand_in_has_the_name(pool, name, n - 1);
    }
}

/// Whether playlists stand in ascending order of their names.
pub open spec fn in_name_order(playlists: Seq<PlaylistView>) -> bool {
    forall|a: int, b: int|
        #![trigger playlists[a], playlists[b]]
        0 <= a < b < playlists.len() ==> !before(playlists[b].name, playlists[a].name)
}

proof fn lemma_parsed_in_name_order(
    files: Seq<FileEntry>,
    order: Seq<int>,
    k: int,
    pool: Seq<FileEntry>,
    parsed: Seq<PlaylistView>,
    notes: Option<Seq<Note>>,
)
    requires
        0 <= k <= order.len(),
        ascending(files, order),
        in_name_order(parsed),
        forall|a: int, b: int|
            #![trigger parsed[a], order[b]]
            0 <= a < parsed.len() && k <= b < order.len() ==> !before(
                upper(files[order[b]].name@),
                parsed[a].name,
            ),
    ensures
        match playlists_from(files, order, k, pool, parsed, notes).0 {
            Ok(list) => in_name_order(list),
            Err(_) => true,
        },
    decreases order.len() - k,
{
    if k < order.len() {
        let file = files[order[k]];
        let primary = playlist_in(file);
        let after = after_reading(
            primary,
            notes,
            crate::error::ScanStage::Playlist,
            file.name@,
        );
        lemma_stand_in_has_the_name(pool, file.name@, pool.len() as int);
        match recovered(primary, playlist_backup(pool, file.name@), notes) {
            Err(_) => {},
            Ok(Some(p)) => {
                assert(p.name == upper(file.name@));
                let next = parsed.push(p);
                assert forall|a: int, b: int|
                    #![trigger next[a], order[b]]
                    0 <= a < next.len() && k + 1 <= b < order.len() implies !before(
                    upper(files[order[b]].name@),
                    next[a].name,
                ) by {
                    if a == parsed.len() {
                        assert(!before(
                            upper(files[order[b]].name@),
                            upper(files[order[k]].name@),
                        ));
                    } else {
                        assert(next[a] == parsed[a]);
                    }
                }
                assert forall|a: int, b: int|
                    #![trigger next[a], next[b]]
                    0 <= a < b < next.len() implies !before(next[b].name, next[a].name) by {
                    assert(next[a] == parsed[a]);
                    if b == parsed.len() {
                        assert(!before(upper(files[order[k]].name@), parsed[a].name));
                    } else {
                        assert(next[b] == parsed[b]);
                    }
                }
                lemma_parsed_in_name_order(files, order, k + 1, pool, next, after);
            },
            Ok(None) => {
                lemma_parsed_in_name_order(files, order, k + 1, pool, parsed, after);
            },
        }
    }
}

/// The playlists of a disc come in ascending order of their upper-cased names, whether they
/// were read from the files themselves or from their backups.
pub proof fn lemma_opened_playlists_are_sorted(
    root: DirEntry,
    l: LayoutView,
    notes: Option<Seq<Note>>,
)
    ensures
        match opened_at(root, l, notes).0 {
            Ok(o) => in_name_order(o.playlists),
            Err(_) => true,
        },
{
    let (backups, n1) = usable_backups(l.bdmv, notes);
    let (level, n2) = level_of(root, l, backups.index, n1);
    let (maps, n3) = maps_of(l, backups.clipinf, n2);
    match listing_step(l.playlist, n3) {
        (Ok(files), n4) => {
            lemma_playlists_are_sorted(files, files.len() as int);
            lemma_parsed_in_name_order(
                files,
                name_order(files, files.len() as int),
                0,
                backups.playlist,
                Seq::empty(),
                n4,
            );
        },
        (Err(_), _) => {},
    }
}

} // verus!
