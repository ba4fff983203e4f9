//! Which playlists and clip files a scan has read, from where, and what it reports of them.

use vstd::prelude::*;

use super::catalog::{
    after_reading, clip_file_in, clips_from, name_order, playlist_in, playlists_from, recovered,
    slot_for, summaries_from,
};
use super::clpi::{clip_streams, ClipFileView};
use super::disc::PlaylistSummaryView;
use super::discovery::{is_kind, BdFileKind, FileEntry};
use super::m2ts::FileView;
use super::mpls::{playlist, PlaylistView};
use super::present::StreamText;
use super::resolve::metas_of;
use super::sink::noted;
use super::summarise::summary_by;
use crate::error::{Failure, Note, ScanStage};
use crate::names::{distinct, find, lemma_put_find, put};
use crate::text::upper;

verus! {

// ---- one file ----

/// A file says as clip information, and as a playlist, what its bytes say, under its
/// upper-cased name; one that cannot be read, or that is larger than a metadata file may be,
/// says nothing and why.
pub proof fn lemma_a_file_says_what_its_bytes_say(file: FileEntry)
    ensures
        file.content is Err ==> clip_file_in(file) == Err::<ClipFileView, Failure>(
            file.content->Err_0@,
        ) && playlist_in(file) == Err::<PlaylistView, Failure>(file.content->Err_0@),
        file.content is Ok && file.content->Ok_0@.len() > 0x400_0000 ==> clip_file_in(file) == Err::<
            ClipFileView,
            Failure,
        >(Failure::MetadataTooLarge { file: file.name@, limit: 0x400_0000 }) && playlist_in(file)
            == Err::<PlaylistView, Failure>(
            Failure::MetadataTooLarge { file: file.name@, limit: 0x400_0000 },
        ),
        file.content is Ok && file.content->Ok_0@.len() <= 0x400_0000 ==> {
            let b = file.content->Ok_0@;
            &&& clip_file_in(file) is Ok <==> clip_streams(b) is Ok
            &&& clip_file_in(file) is Ok ==> clip_file_in(file)->Ok_0.streams
                == clip_streams(b)->Ok_0 && clip_file_in(file)->Ok_0.name == upper(file.name@)
            &&& playlist_in(file) is Ok <==> playlist(b) is Ok
            &&& playlist_in(file) is Ok ==> {
                let p = playlist_in(file)->Ok_0;
                &&& p.name == upper(file.name@)
                &&& p.clips == playlist(b)->Ok_0.clips
                &&& p.chapters == playlist(b)->Ok_0.chapters
                &&& p.playlist_streams == playlist(b)->Ok_0.playlist_streams
                &&& p.mvc_base_view_r == playlist(b)->Ok_0.mvc_base_view_r
                &&& p.angle_count == playlist(b)->Ok_0.angle_count as i32
                &&& p.streams.dom() == Set::<u16>::empty()
                &&& p.angle_streams.len() == 0
            }
        },
{
}

/// What stands for a file: what it says, and nothing else where it says anything. A strict
/// scan fails where it does not; a resilient one takes what the backup says, where there is
/// one that says anything, and goes on without where there is none. Every failure is noted
/// under the file's name, whether the backup helps or not.
pub proof fn lemma_what_stands_for_a_file<V>(
    primary: Result<V, Failure>,
    backup: Option<Result<V, Failure>>,
    notes: Option<Seq<Note>>,
    stage: ScanStage,
    name: Seq<char>,
)
    ensures
        primary is Ok ==> recovered(primary, backup, notes) == Ok::<Option<V>, Failure>(
            Some(primary->Ok_0),
        ) && after_reading(primary, notes, stage, name) == notes,
        primary is Err && notes is None ==> recovered(primary, backup, notes) is Err && recovered(
            primary,
            backup,
            notes,
        )->Err_0 == primary->Err_0,
        primary is Err && notes is Some ==> {
            let after = after_reading(primary, notes, stage, name);
            &&& recovered(primary, backup, notes) is Ok
            &&& backup is Some && backup->Some_0 is Ok ==> recovered(primary, backup, notes)->Ok_0
                == Some(backup->Some_0->Ok_0)
            &&& !(backup is Some && backup->Some_0 is Ok) ==> recovered(
                primary,
                backup,
                notes,
            )->Ok_0 is None
            &&& after is Some
            &&& after->Some_0.len() == notes->Some_0.len() + 1
            &&& after->Some_0.drop_last() == notes->Some_0
            &&& after->Some_0.last().file == name
            &&& after->Some_0.last().stage == stage
            &&& after->Some_0.last().reason == primary->Err_0
        },
{
    if primary is Err && notes is Some {
        let after = after_reading(primary, notes, stage, name);
        assert(after->Some_0.drop_last() =~= notes->Some_0);
    }
}

// ---- clip files ----

#[verifier::rlimit(50)]
proof fn lemma_clips(
    files: Seq<FileEntry>,
    i: int,
    table: Seq<(Seq<char>, ClipFileView)>,
    name: Seq<char>,
)
    requires
        0 <= i <= files.len(),
        distinct(table),
        clips_from(files, i, Seq::empty(), table, None).0 is Ok,
    ensures
        ({
            let all = clips_from(files, i, Seq::empty(), table, None).0->Ok_0;
            &&& distinct(all)
            &&& (exists|k: int|
                i <= k < files.len() && is_kind(
                    (#[trigger] files[k]).name@,
                    BdFileKind::ClipInfo,
                ) && upper(files[k].name@) == name && find(all, name) == Some(
                    clip_file_in(files[k])->Ok_0,
                ) && clip_file_in(files[k]) is Ok) || (find(all, name) == find(table, name)
                && forall|k: int|
                i <= k < files.len() && is_kind(
                    (#[trigger] files[k]).name@,
                    BdFileKind::ClipInfo,
                ) ==> upper(files[k].name@) != name)
        }),
    decreases files.len() - i,
{
    if i < files.len() {
        let all = clips_from(files, i, Seq::empty(), table, None).0->Ok_0;
        let f = files[i];
        if !is_kind(f.name@, BdFileKind::ClipInfo) {
            lemma_clips(files, i + 1, table, name);
        } else {
            let v = clip_file_in(f)->Ok_0;
            let next = put(table, upper(f.name@), v);
            lemma_put_find(table, upper(f.name@), v, name);
            lemma_clips(files, i + 1, next, name);
        }
        if exists|k: int|
            i + 1 <= k < files.len() && is_kind(
                (#[trigger] files[k]).name@,
                BdFileKind::ClipInfo,
            ) && upper(files[k].name@) == name && find(all, name) == Some(
                clip_file_in(files[k])->Ok_0,
            ) && clip_file_in(files[k]) is Ok {
            let k = choose|k: int|
                i + 1 <= k < files.len() && is_kind(
                    (#[trigger] files[k]).name@,
                    BdFileKind::ClipInfo,
                ) && upper(files[k].name@) == name && find(all, name) == Some(
                    clip_file_in(files[k])->Ok_0,
                ) && clip_file_in(files[k]) is Ok;
            assert(is_kind(files[k].name@, BdFileKind::ClipInfo));
        } else if is_kind(f.name@, BdFileKind::ClipInfo) && upper(f.name@) == name {
            assert(is_kind(files[i].name@, BdFileKind::ClipInfo));
            assert(find(all, name) == Some(clip_file_in(files[i])->Ok_0));
        }
    }
}

/// The table of clip files of a strict scan has what every clip file says, under its
/// upper-cased name, and nothing under any other name.
pub proof fn lemma_the_table_has_every_clip_file(files: Seq<FileEntry>, name: Seq<char>)
    requires
        clips_from(files, 0, Seq::empty(), Seq::empty(), None).0 is Ok,
    ensures
        ({
            let all = clips_from(files, 0, Seq::empty(), Seq::empty(), None).0->Ok_0;
            &&& find(all, name) is Some ==> exists|k: int|
                0 <= k < files.len() && is_kind(
                    (#[trigger] files[k]).name@,
                    BdFileKind::ClipInfo,
                ) && upper(files[k].name@) == name && clip_file_in(files[k]) == Ok::<
                    ClipFileView,
                    Failure,
                >(find(all, name)->Some_0)
            &&& find(all, name) is None ==> forall|k: int|
                0 <= k < files.len() && is_kind(
                    (#[trigger] files[k]).name@,
                    BdFileKind::ClipInfo,
                ) ==> upper(files[k].name@) != name
        }),
{
    let none = Seq::<(Seq<char>, ClipFileView)>::empty();
    lemma_clips(files, 0, none, name);
    let all = clips_from(files, 0, Seq::empty(), none, None).0->Ok_0;
    if find(all, name) is Some {
        let k = choose|k: int|
            0 <= k < files.len() && is_kind(
                (#[trigger] files[k]).name@,
                BdFileKind::ClipInfo,
            ) && upper(files[k].name@) == name && find(all, name) == Some(
                clip_file_in(files[k])->Ok_0,
            ) && clip_file_in(files[k]) is Ok;
        assert(is_kind(files[k].name@, BdFileKind::ClipInfo));
    }
}

// ---- playlists ----

#[verifier::rlimit(50)]
proof fn lemma_order(files: Seq<FileEntry>, n: int)
    requires
        0 <= n <= files.len(),
    ensures
        name_order(files, n).no_duplicates(),
        forall|k: int|
            0 <= k < name_order(files, n).len() ==> 0 <= #[trigger] name_order(files, n)[k] < n
                && is_kind(files[name_order(files, n)[k]].name@, BdFileKind::Playlist),
        forall|i: int|
            0 <= i < n && is_kind((#[trigger] files[i]).name@, BdFileKind::Playlist)
                ==> name_order(files, n).contains(i),
    decreases n,
{
    if n > 0 {
        lemma_order(files, n - 1);
        let was = name_order(files, n - 1);
        let now = name_order(files, n);
        if is_kind(files[n - 1].name@, BdFileKind::Playlist) {
            let at = slot_for(files, was, upper(files[n - 1].name@), 0);
            lemma_slot(files, was, upper(files[n - 1].name@), 0);
            assert(now == was.insert(at, n - 1));
            assert forall|k: int| 0 <= k < now.len() implies 0 <= #[trigger] now[k] < n && is_kind(
                files[now[k]].name@,
                BdFileKind::Playlist,
            ) by {
                if k < at {
                    assert(now[k] == was[k]);
                } else if k > at {
                    assert(now[k] == was[k - 1]);
                }
            }
            assert forall|i: int| 0 <= i < n && is_kind(
                (#[trigger] files[i]).name@,
                BdFileKind::Playlist,
            ) implies now.contains(i) by {
                if i == n - 1 {
                    assert(now[at] == i);
                } else {
                    assert(was.contains(i));
                    let k = choose|k: int| 0 <= k < was.len() && was[k] == i;
                    if k < at {
                        assert(now[k] == i);
                    } else {
                        assert(now[k + 1] == i);
                    }
                }
            }
            assert forall|a: int, b: int|
                0 <= a < now.len() && 0 <= b < now.len() && a != b implies now[a] != now[b] by {
                let x = if a < at {
                    a
                } else {
                    a - 1
                };
                let y = if b < at {
                    b
                } else {
                    b - 1
                };
                if a != at {
                    assert(now[a] == was[x]);
                    assert(was[x] < n - 1);
                }
                if b != at {
                    assert(now[b] == was[y]);
                    assert(was[y] < n - 1);
                }
            }
        }
    }
}

proof fn lemma_slot(files: Seq<FileEntry>, order: Seq<int>, key: Seq<char>, k: int)
    requires
        0 <= k <= order.len(),
    ensures
        k <= slot_for(files, order, key, k) <= order.len(),
    decreases order.len() - k,
{
    if k < order.len() {
        lemma_slot(files, order, key, k + 1);
    }
}

proof fn lemma_playlists(
    files: Seq<FileEntry>,
    order: Seq<int>,
    k: int,
    parsed: Seq<PlaylistView>,
)
    requires
        0 <= k <= order.len(),
        parsed.len() == k,
        forall|j: int|
            0 <= j < k ==> playlist_in(files[#[trigger] order[j]]) == Ok::<PlaylistView, Failure>(
                parsed[j],
            ),
        playlists_from(files, order, k, Seq::empty(), parsed, None).0 is Ok,
    ensures
        ({
            let all = playlists_from(files, order, k, Seq::empty(), parsed, None).0->Ok_0;
            &&& all.len() == order.len()
            &&& forall|j: int|
                0 <= j < order.len() ==> playlist_in(files[#[trigger] order[j]]) == Ok::<
                    PlaylistView,
                    Failure,
                >(all[j])
        }),
    decreases order.len() - k,
{
    if k < order.len() {
        let p = playlist_in(files[order[k]])->Ok_0;
        lemma_playlists(files, order, k + 1, parsed.push(p));
    }
}

/// A strict scan has one playlist for every playlist file of the disc, and no other: what
/// that file says.
pub proof fn lemma_every_playlist_file_is_read(files: Seq<FileEntry>)
    requires
        playlists_from(
            files,
            name_order(files, files.len() as int),
            0,
            Seq::empty(),
            Seq::empty(),
            None,
        ).0 is Ok,
    ensures
        ({
            let order = name_order(files, files.len() as int);
            let all = playlists_from(files, order, 0, Seq::empty(), Seq::empty(), None).0->Ok_0;
            &&& all.len() == order.len()
            &&& order.no_duplicates()
            &&& forall|j: int|
                0 <= j < order.len() ==> 0 <= #[trigger] order[j] < files.len() && is_kind(
                    files[order[j]].name@,
                    BdFileKind::Playlist,
                ) && playlist_in(files[order[j]]) == Ok::<PlaylistView, Failure>(all[j])
            &&& forall|i: int|
                0 <= i < files.len() && is_kind((#[trigger] files[i]).name@, BdFileKind::Playlist)
                    ==> order.contains(i)
        }),
{
    let order = name_order(files, files.len() as int);
    lemma_order(files, files.len() as int);
    lemma_playlists(files, order, 0, Seq::empty());
}

// ---- summaries ----

/// What a playlist is summarised to.
pub open spec fn summary_of<T: StreamText>(
    text: T,
    p: PlaylistView,
    clip_files: Seq<(Seq<char>, ClipFileView)>,
    stream_files: Seq<(Seq<char>, u64)>,
    interleaved_files: Seq<(Seq<char>, u64)>,
    scanned: Seq<(Seq<char>, FileView)>,
    measured: Seq<(Seq<char>, FileView)>,
) -> (PlaylistSummaryView, bool) {
    summary_by(
        text,
        p,
        metas_of(p.clips, clip_files, stream_files, scanned, p.clips.len() as int)->Ok_0,
        stream_files,
        interleaved_files,
        measured,
    )
}

/// A strict scan reports every playlist, in their order and each by its own clips; and the
/// disc is of 25 or 50 frames per second where one of them is.
#[verifier::rlimit(50)]
pub proof fn lemma_every_playlist_is_reported<T: StreamText>(
    text: T,
    playlists: Seq<PlaylistView>,
    i: int,
    clip_files: Seq<(Seq<char>, ClipFileView)>,
    stream_files: Seq<(Seq<char>, u64)>,
    interleaved_files: Seq<(Seq<char>, u64)>,
    scanned: Seq<(Seq<char>, FileView)>,
    measured: Seq<(Seq<char>, FileView)>,
    so_far: (Seq<PlaylistSummaryView>, bool),
)
    requires
        0 <= i <= playlists.len(),
        summaries_from(
            text,
            playlists,
            i,
            clip_files,
            stream_files,
            interleaved_files,
            scanned,
            measured,
            so_far,
            None,
        ).0 is Ok,
    ensures
        ({
            let (list, hz) = summaries_from(
                text,
                playlists,
                i,
                clip_files,
                stream_files,
                interleaved_files,
                scanned,
                measured,
                so_far,
                None,
            ).0->Ok_0;
            let at = so_far.0.len() as int;
            &&& list.len() == at + playlists.len() - i
            &&& forall|k: int| 0 <= k < at ==> list[k] == so_far.0[k]
            &&& forall|k: int|
                #![trigger playlists[k]]
                i <= k < playlists.len() ==> metas_of(
                    playlists[k].clips,
                    clip_files,
                    stream_files,
                    scanned,
                    playlists[k].clips.len() as int,
                ) is Ok && list[at + k - i] == summary_of(
                    text,
                    playlists[k],
                    clip_files,
                    stream_files,
                    interleaved_files,
                    scanned,
                    measured,
                ).0
            &&& hz == (so_far.1 || exists|k: int|
                #![trigger playlists[k]]
                i <= k < playlists.len() && summary_of(
                    text,
                    playlists[k],
                    clip_files,
                    stream_files,
                    interleaved_files,
                    scanned,
                    measured,
                ).1)
        }),
    decreases playlists.len() - i,
{
    if i < playlists.len() {
        let p = playlists[i];
        let (summary, hz) = summary_of(
            text,
            p,
            clip_files,
            stream_files,
            interleaved_files,
            scanned,
            measured,
        );
        let next = (so_far.0.push(summary), so_far.1 || hz);
        lemma_every_playlist_is_reported(
            text,
            playlists,
            i + 1,
            clip_files,
            stream_files,
            interleaved_files,
            scanned,
            measured,
            next,
        );
        let (list, all) = summaries_from(
            text,
            playlists,
            i,
            clip_files,
            stream_files,
            interleaved_files,
            scanned,
            measured,
            so_far,
            None,
        ).0->Ok_0;
        let at = so_far.0.len() as int;
        assert forall|k: int| 0 <= k < at implies list[k] == so_far.0[k] by {
            assert(list[k] == next.0[k]);
        }
        assert(list[at] == next.0[at]);
        if hz {
            assert(playlists[i] == p);
        }
        if exists|k: int|
            #![trigger playlists[k]]
            i <= k < playlists.len() && summary_of(
                text,
                playlists[k],
                clip_files,
                stream_files,
                interleaved_files,
                scanned,
                measured,
            ).1 {
            let k = choose|k: int|
                #![trigger playlists[k]]
                i <= k < playlists.len() && summary_of(
                    text,
                    playlists[k],
                    clip_files,
                    stream_files,
                    interleaved_files,
                    scanned,
                    measured,
                ).1;
            if k > i {
                assert(i + 1 <= k);
            }
        }
    }
}

} // verus!
