//! What a disc's facts rest on: which directory or file makes which fact true.

use vstd::prelude::*;

use super::discovery::{
    any_named, child, content_encrypted, files_bytes, first_scannable, has_key_file, is_kind,
    looks_encrypted, named_from, sizes_of, syncs, tree_size, trees_size, BdFileKind, DirEntry,
    FileEntry, MAX_BDMV_ANCESTORS,
};
use super::open::{
    backup_of, first_named, index_bytes, layout_of, level_of, listed, stand_in, title_below,
    title_file, LayoutView,
};
use super::title::{
    first_element, is_named_child, is_under, named_child, text_under, title_of, XmlNodeView,
};
use crate::error::{Failure, Note};
use crate::names::{distinct, find, lemma_put_find};
use crate::sums::sum;
use crate::text::{ends_like, same_text, upper};

verus! {

// ---- names ----

/// Two texts are the same but for case where they have the same length and each pair of
/// letters does; so a name in any case is found.
pub proof fn lemma_a_name_in_any_case(a: Seq<char>, b: Seq<char>)
    ensures
        same_text(a, a),
        same_text(a, b) == same_text(b, a),
        same_text(a, b) ==> a.len() == b.len(),
        same_text(a, upper(a)),
{
    crate::text::lemma_upper_is_idempotent(a);
    if same_text(a, b) {
        assert(upper(a).len() == a.len());
        assert(upper(b).len() == b.len());
    }
}

/// The kind of a file is that of its extension, in any case, and of no other part of its
/// name.
#[verifier::rlimit(50)]
pub proof fn lemma_kinds_go_by_extension(name: Seq<char>, kind: BdFileKind)
    ensures
        is_kind(name + ".m2ts"@, BdFileKind::Stream),
        is_kind(name + ".fmts"@, BdFileKind::Stream),
        is_kind(name + ".ssif"@, BdFileKind::Interleaved),
        is_kind(name + ".mpls"@, BdFileKind::Playlist),
        is_kind(name + ".clpi"@, BdFileKind::ClipInfo),
        is_kind(name, kind) ==> name.len() >= 5,
        is_kind(name, BdFileKind::Stream) ==> !is_kind(name, BdFileKind::Interleaved) && !is_kind(
            name,
            BdFileKind::Playlist,
        ) && !is_kind(name, BdFileKind::ClipInfo),
{
    reveal_strlit(".m2ts");
    reveal_strlit(".fmts");
    reveal_strlit(".ssif");
    reveal_strlit(".mpls");
    reveal_strlit(".clpi");
    lemma_ends(name, ".m2ts"@);
    lemma_ends(name, ".fmts"@);
    lemma_ends(name, ".ssif"@);
    lemma_ends(name, ".mpls"@);
    lemma_ends(name, ".clpi"@);
    if is_kind(name, BdFileKind::Stream) {
        let tail = name.subrange(name.len() - 5, name.len() as int);
        assert(upper(tail)[1] == upper(".m2ts"@)[1] || upper(tail)[1] == upper(".fmts"@)[1]);
        assert(upper(".m2ts"@)[1] == 'M' && upper(".fmts"@)[1] == 'F');
        assert(upper(".ssif"@)[1] == 'S' && upper(".clpi"@)[1] == 'C');
        assert(upper(".mpls"@)[1] == 'M' && upper(".mpls"@)[2] == 'P');
        assert(upper(".m2ts"@)[2] == '2');
    }
}

proof fn lemma_ends(name: Seq<char>, tail: Seq<char>)
    ensures
        ends_like(name + tail, tail),
{
    let all = name + tail;
    assert(all.subrange(all.len() - tail.len(), all.len() as int) =~= tail);
}

// ---- directories and files ----

proof fn lemma_named_from(dirs: Seq<DirEntry>, name: Seq<char>, i: int)
    requires
        0 <= i <= dirs.len(),
    ensures
        match named_from(dirs, name, i) {
            Some(d) => exists|k: int|
                i <= k < dirs.len() && #[trigger] dirs[k] == d && same_text(dirs[k].name@, name)
                    && forall|j: int|
                    i <= j < k ==> !same_text((#[trigger] dirs[j]).name@, name),
            None => forall|j: int|
                i <= j < dirs.len() ==> !same_text((#[trigger] dirs[j]).name@, name),
        },
    decreases dirs.len() - i,
{
    if i < dirs.len() && !same_text(dirs[i].name@, name) {
        lemma_named_from(dirs, name, i + 1);
        if let Some(d) = named_from(dirs, name, i + 1) {
            let k = choose|k: int|
                i + 1 <= k < dirs.len() && #[trigger] dirs[k] == d && same_text(
                    dirs[k].name@,
                    name,
                ) && forall|j: int|
                    i + 1 <= j < k ==> !same_text((#[trigger] dirs[j]).name@, name);
            assert(i <= k < dirs.len() && dirs[k] == d);
        }
    } else if i < dirs.len() {
        assert(dirs[i] == dirs[i]);
    }
}

/// A child of a directory is the first of its directories that has the name, in any case; a
/// directory without such a child has none.
pub proof fn lemma_a_child_goes_by_name(dir: DirEntry, name: Seq<char>)
    requires
        dir.dirs is Ok,
    ensures
        child(dir, name) is Ok,
        match child(dir, name)->Ok_0 {
            Some(d) => exists|k: int|
                0 <= k < dir.dirs->Ok_0@.len() && #[trigger] dir.dirs->Ok_0@[k] == d && same_text(
                    dir.dirs->Ok_0@[k].name@,
                    name,
                ) && forall|j: int|
                    0 <= j < k ==> !same_text((#[trigger] dir.dirs->Ok_0@[j]).name@, name),
            None => forall|j: int|
                0 <= j < dir.dirs->Ok_0@.len() ==> !same_text(
                    (#[trigger] dir.dirs->Ok_0@[j]).name@,
                    name,
                ),
        },
{
    lemma_named_from(dir.dirs->Ok_0@, name, 0);
}

proof fn lemma_first_named(files: Seq<FileEntry>, name: Seq<char>, i: int)
    requires
        0 <= i <= files.len(),
    ensures
        match first_named(files, name, i) {
            Some(f) => exists|k: int|
                i <= k < files.len() && #[trigger] files[k] == f && same_text(files[k].name@, name)
                    && forall|j: int|
                    i <= j < k ==> !same_text((#[trigger] files[j]).name@, name),
            None => forall|j: int|
                i <= j < files.len() ==> !same_text((#[trigger] files[j]).name@, name),
        },
    decreases files.len() - i,
{
    if i < files.len() && !same_text(files[i].name@, name) {
        lemma_first_named(files, name, i + 1);
        if let Some(f) = first_named(files, name, i + 1) {
            let k = choose|k: int|
                i + 1 <= k < files.len() && #[trigger] files[k] == f && same_text(
                    files[k].name@,
                    name,
                ) && forall|j: int|
                    i + 1 <= j < k ==> !same_text((#[trigger] files[j]).name@, name);
            assert(i <= k < files.len() && files[k] == f);
        }
    } else if i < files.len() {
        assert(files[i] == files[i]);
    }
}

proof fn lemma_stand_in(pool: Seq<FileEntry>, name: Seq<char>, n: int)
    requires
        0 <= n <= pool.len(),
    ensures
        match stand_in(pool, name, n) {
            Some(f) => exists|k: int|
                0 <= k < n && #[trigger] pool[k] == f && same_text(pool[k].name@, name) && forall|
                    j: int,
                |
                    k < j < n ==> !same_text((#[trigger] pool[j]).name@, name),
            None => forall|j: int| 0 <= j < n ==> !same_text((#[trigger] pool[j]).name@, name),
        },
    decreases n,
{
    if n > 0 && !same_text(pool[n - 1].name@, name) {
        lemma_stand_in(pool, name, n - 1);
        if let Some(f) = stand_in(pool, name, n - 1) {
            let k = choose|k: int|
                0 <= k < n - 1 && #[trigger] pool[k] == f && same_text(pool[k].name@, name)
                    && forall|j: int|
                    k < j < n - 1 ==> !same_text((#[trigger] pool[j]).name@, name);
            assert(0 <= k < n && pool[k] == f);
        }
    } else if n > 0 {
        assert(pool[n - 1] == pool[n - 1]);
    }
}

/// The backup of a file is the last one of its name, in any case; without one there is none.
pub proof fn lemma_a_backup_goes_by_name(pool: Seq<FileEntry>, name: Seq<char>)
    ensures
        match backup_of(pool, name) {
            Some(f) => exists|k: int|
                0 <= k < pool.len() && #[trigger] pool[k] == f && same_text(pool[k].name@, name)
                    && forall|j: int|
                    k < j < pool.len() ==> !same_text((#[trigger] pool[j]).name@, name),
            None => forall|j: int|
                0 <= j < pool.len() ==> !same_text((#[trigger] pool[j]).name@, name),
        },
{
    lemma_stand_in(pool, name, pool.len() as int);
}

/// The disc that a directory lies in starts above the nearest directory, it or one above it,
/// that a scan can start from; no directory nearer is one.
pub proof fn lemma_the_nearest_root_is_taken(chain: Seq<DirEntry>, i: int)
    requires
        0 <= i,
    ensures
        match first_scannable(chain, i) {
            Some(k) => i <= k < chain.len() && k <= 64 && super::discovery::scannable(chain[k])
                && forall|j: int|
                i <= j < k ==> !super::discovery::scannable(#[trigger] chain[j]),
            None => forall|j: int|
                i <= j < chain.len() && j <= 64 ==> !super::discovery::scannable(
                    #[trigger] chain[j],
                ),
        },
    decreases chain.len() - i,
{
    if i < chain.len() && i <= MAX_BDMV_ANCESTORS && !super::discovery::scannable(chain[i]) {
        lemma_the_nearest_root_is_taken(chain, i + 1);
    }
}

/// A directory is one that a scan can start from where it is called `BDMV`, in any case, and
/// has the clip information and the playlists.
pub proof fn lemma_where_a_scan_can_start(dir: DirEntry)
    requires
        dir.dirs is Ok,
    ensures
        super::discovery::scannable(dir) == (same_text(dir.name@, "BDMV"@) && (exists|i: int|
            0 <= i < dir.dirs->Ok_0@.len() && same_text(
                (#[trigger] dir.dirs->Ok_0@[i]).name@,
                "CLIPINF"@,
            )) && exists|i: int|
            0 <= i < dir.dirs->Ok_0@.len() && same_text(
                (#[trigger] dir.dirs->Ok_0@[i]).name@,
                "PLAYLIST"@,
            )),
{
    lemma_a_child_goes_by_name(dir, "CLIPINF"@);
    lemma_a_child_goes_by_name(dir, "PLAYLIST"@);
}

/// The directories of a disc stand where they belong: `BDMV` and `SNP` in the root, the clip
/// information, the playlists, the streams, the disc info and the BD-Java objects in `BDMV`,
/// and the interleaved files in the streams.
pub proof fn lemma_where_the_directories_are(root: DirEntry, notes: Option<Seq<Note>>)
    requires
        layout_of(root, notes).0 is Ok,
    ensures
        ({
            let l = layout_of(root, notes).0->Ok_0;
            &&& child(root, "BDMV"@) == Ok::<Option<DirEntry>, Failure>(Some(l.bdmv))
            &&& child(l.bdmv, "CLIPINF"@) == Ok::<Option<DirEntry>, Failure>(Some(l.clipinf))
            &&& child(l.bdmv, "PLAYLIST"@) == Ok::<Option<DirEntry>, Failure>(Some(l.playlist))
            &&& child(l.bdmv, "STREAM"@) == Ok::<Option<DirEntry>, Failure>(l.stream)
            &&& child(l.bdmv, "META"@) == Ok::<Option<DirEntry>, Failure>(l.meta)
            &&& child(l.bdmv, "BDJO"@) == Ok::<Option<DirEntry>, Failure>(l.bdjo)
            &&& child(root, "SNP"@) == Ok::<Option<DirEntry>, Failure>(l.snp)
            &&& l.stream is None ==> l.ssif is None
            &&& l.stream is Some && child(l.stream->Some_0, "SSIF"@) is Ok ==> l.ssif == child(
                l.stream->Some_0,
                "SSIF"@,
            )->Ok_0
        }),
{
}

// ---- sizes ----

proof fn lemma_files_bytes(files: Seq<FileEntry>, interleaved: bool, n: int)
    requires
        0 <= n <= files.len(),
    ensures
        files_bytes(files, interleaved, n) == sum(
            Seq::new(
                n as nat,
                |i: int|
                    if ends_like(files[i].name@, ".ssif"@) == interleaved {
                        files[i].length as int
                    } else {
                        0
                    },
            ),
        ),
    decreases n,
{
    let bytes = Seq::new(
        n as nat,
        |i: int|
            if ends_like(files[i].name@, ".ssif"@) == interleaved {
                files[i].length as int
            } else {
                0
            },
    );
    if n > 0 {
        lemma_files_bytes(files, interleaved, n - 1);
        assert(bytes.drop_last() =~= Seq::new(
            (n - 1) as nat,
            |i: int|
                if ends_like(files[i].name@, ".ssif"@) == interleaved {
                    files[i].length as int
                } else {
                    0
                },
        ));
    }
}

/// What the directories of a directory hold, one by one.
pub open spec fn sizes_below(dir: DirEntry, interleaved: bool, n: nat) -> Seq<int> {
    Seq::new(
        n,
        |i: int|
            if interleaved {
                tree_size(dir.dirs->Ok_0@[i])->Ok_0.1
            } else {
                tree_size(dir.dirs->Ok_0@[i])->Ok_0.0
            },
    )
}

proof fn lemma_trees_size(dir: DirEntry, n: int)
    requires
        dir.dirs is Ok,
        0 <= n <= dir.dirs->Ok_0@.len(),
        trees_size(dir, n) is Ok,
    ensures
        forall|i: int| 0 <= i < n ==> tree_size(#[trigger] dir.dirs->Ok_0@[i]) is Ok,
        trees_size(dir, n)->Ok_0.0 == sum(sizes_below(dir, false, n as nat)),
        trees_size(dir, n)->Ok_0.1 == sum(sizes_below(dir, true, n as nat)),
    decreases n,
{
    if n > 0 {
        lemma_trees_size(dir, n - 1);
        assert(sizes_below(dir, false, n as nat).drop_last() =~= sizes_below(
            dir,
            false,
            (n - 1) as nat,
        ));
        assert(sizes_below(dir, true, n as nat).drop_last() =~= sizes_below(
            dir,
            true,
            (n - 1) as nat,
        ));
    }
}

/// A directory is as large as its own files and all that its directories hold together. The
/// interleaved files, by their extension in any case, are counted apart, and every file in
/// one of the two sizes.
pub proof fn lemma_a_directory_is_as_large_as_what_is_in_it(dir: DirEntry)
    requires
        tree_size(dir) is Ok,
    ensures
        dir.files is Ok,
        dir.dirs is Ok,
        ({
            let files = dir.files->Ok_0@;
            let n = dir.dirs->Ok_0@.len();
            &&& tree_size(dir)->Ok_0.0 == sum(sizes_below(dir, false, n)) + sum(
                Seq::new(
                    files.len(),
                    |i: int|
                        if ends_like(files[i].name@, ".ssif"@) {
                            0
                        } else {
                            files[i].length as int
                        },
                ),
            )
            &&& tree_size(dir)->Ok_0.1 == sum(sizes_below(dir, true, n)) + sum(
                Seq::new(
                    files.len(),
                    |i: int|
                        if ends_like(files[i].name@, ".ssif"@) {
                            files[i].length as int
                        } else {
                            0
                        },
                ),
            )
        }),
{
    let files = dir.files->Ok_0@;
    let n = dir.dirs->Ok_0@.len() as int;
    lemma_trees_size(dir, n);
    lemma_files_bytes(files, false, files.len() as int);
    lemma_files_bytes(files, true, files.len() as int);
    assert(Seq::new(
        files.len(),
        |i: int|
            if ends_like(files[i].name@, ".ssif"@) == false {
                files[i].length as int
            } else {
                0
            },
    ) =~= Seq::new(
        files.len(),
        |i: int|
            if ends_like(files[i].name@, ".ssif"@) {
                0
            } else {
                files[i].length as int
            },
    ));
    assert(Seq::new(
        files.len(),
        |i: int|
            if ends_like(files[i].name@, ".ssif"@) == true {
                files[i].length as int
            } else {
                0
            },
    ) =~= Seq::new(
        files.len(),
        |i: int|
            if ends_like(files[i].name@, ".ssif"@) {
                files[i].length as int
            } else {
                0
            },
    ));
}

proof fn lemma_sizes(files: Seq<FileEntry>, kind: BdFileKind, n: int, name: Seq<char>)
    requires
        0 <= n <= files.len(),
    ensures
        distinct(sizes_of(files, kind, n)),
        match find(sizes_of(files, kind, n), name) {
            Some(size) => exists|k: int|
                0 <= k < n && (#[trigger] files[k]).length == size && is_kind(files[k].name@, kind)
                    && upper(files[k].name@) == name && forall|j: int|
                    k < j < n && is_kind((#[trigger] files[j]).name@, kind) ==> upper(
                        files[j].name@,
                    ) != name,
            None => forall|j: int|
                0 <= j < n && is_kind((#[trigger] files[j]).name@, kind) ==> upper(files[j].name@)
                    != name,
        },
    decreases n,
{
    if n > 0 {
        lemma_sizes(files, kind, n - 1, name);
        let f = files[n - 1];
        if is_kind(f.name@, kind) {
            lemma_put_find(sizes_of(files, kind, n - 1), upper(f.name@), f.length, name);
        }
        if is_kind(f.name@, kind) && upper(f.name@) == name {
            assert(files[n - 1].length == f.length);
        } else if let Some(size) = find(sizes_of(files, kind, n - 1), name) {
            let k = choose|k: int|
                0 <= k < n - 1 && (#[trigger] files[k]).length == size && is_kind(
                    files[k].name@,
                    kind,
                ) && upper(files[k].name@) == name && forall|j: int|
                    k < j < n - 1 && is_kind((#[trigger] files[j]).name@, kind) ==> upper(
                        files[j].name@,
                    ) != name;
            assert(0 <= k < n && files[k].length == size);
        }
    }
}

/// The table of sizes has every file of a kind under its upper-cased name, with its length;
/// the last of a name where there are several; and no other name.
pub proof fn lemma_a_table_of_sizes_has_every_file(
    files: Seq<FileEntry>,
    kind: BdFileKind,
    name: Seq<char>,
)
    ensures
        match find(sizes_of(files, kind, files.len() as int), name) {
            Some(size) => exists|k: int|
                0 <= k < files.len() && (#[trigger] files[k]).length == size && is_kind(
                    files[k].name@,
                    kind,
                ) && upper(files[k].name@) == name && forall|j: int|
                    k < j < files.len() && is_kind((#[trigger] files[j]).name@, kind) ==> upper(
                        files[j].name@,
                    ) != name,
            None => forall|j: int|
                0 <= j < files.len() && is_kind((#[trigger] files[j]).name@, kind) ==> upper(
                    files[j].name@,
                ) != name,
        },
{
    lemma_sizes(files, kind, files.len() as int, name);
}

// ---- encryption ----

proof fn lemma_syncs(bytes: Seq<u8>, at: int, k: int)
    requires
        1 <= k <= 32,
    ensures
        syncs(bytes, at, k, 32) == sum(
            Seq::new(
                (32 - k) as nat,
                |i: int|
                    if bytes[at + (k + i) * 192 + 4] == 0x47 {
                        1int
                    } else {
                        0int
                    },
            ),
        ),
    decreases 32 - k,
{
    let ones = Seq::new(
        (32 - k) as nat,
        |i: int|
            if bytes[at + (k + i) * 192 + 4] == 0x47 {
                1int
            } else {
                0int
            },
    );
    if k < 32 {
        lemma_syncs(bytes, at, k + 1);
        crate::sums::lemma_sum_first(ones);
        assert(ones.drop_first() =~= Seq::new(
            (32 - (k + 1)) as nat,
            |i: int|
                if bytes[at + (k + 1 + i) * 192 + 4] == 0x47 {
                    1int
                } else {
                    0int
                },
        ));
    }
}

/// A unit of 32 packets looks encrypted where its first packet has the sync byte, and of the
/// 31 others no more than three have it in its place.
pub proof fn lemma_when_a_unit_looks_encrypted(bytes: Seq<u8>, at: int)
    ensures
        looks_encrypted(bytes, at) == (bytes[at + 4] == 0x47 && sum(
            Seq::new(
                31,
                |i: int|
                    if bytes[at + (1 + i) * 192 + 4] == 0x47 {
                        1int
                    } else {
                        0int
                    },
            ),
        ) <= 3),
{
    lemma_syncs(bytes, at, 1);
    assert(Seq::new(
        (32 - 1) as nat,
        |i: int|
            if bytes[at + (1 + i) * 192 + 4] == 0x47 {
                1int
            } else {
                0int
            },
    ) =~= Seq::new(
        31,
        |i: int|
            if bytes[at + (1 + i) * 192 + 4] == 0x47 {
                1int
            } else {
                0int
            },
    ));
}

// ---- the facts ----

/// Whether a disc's index is that of an Ultra HD disc: the first file of that name in `BDMV`
/// starts with its tag and its version.
pub open spec fn says_uhd(bdmv: DirEntry) -> bool {
    &&& index_bytes(bdmv) is Ok
    &&& index_bytes(bdmv)->Ok_0 is Some
    &&& {
        let b = index_bytes(bdmv)->Ok_0->Some_0;
        b.len() >= 8 && b.subrange(0, 8) == seq![
            0x49u8,
            0x4Eu8,
            0x44u8,
            0x58u8,
            0x30u8,
            0x33u8,
            0x30u8,
            0x30u8,
        ]
    }
}

/// What a strict scan says of a disc. Its label is the name of its root. It has BD+ where the
/// root has a directory of one of three names, BD-Java where there is a BD-Java object, PSP
/// content where there is a `*.mnv` file, D-BOX motion code where the root has the film index,
/// 3D where there is an interleaved file, and is an Ultra HD disc where its index says so. It
/// is encrypted where it has the key file and its streams look so. Its sizes are those of all
/// that is in it.
#[verifier::rlimit(50)]
pub proof fn lemma_what_makes_the_facts_true(
    root: DirEntry,
    l: LayoutView,
    pool: Seq<FileEntry>,
)
    requires
        level_of(root, l, pool, None).0 is Ok,
    ensures
        ({
            let v = level_of(root, l, pool, None).0->Ok_0;
            &&& v.volume_label == root.name@
            &&& root.dirs is Ok && v.is_bd_plus == exists|i: int|
                0 <= i < root.dirs->Ok_0@.len() && (upper(
                    (#[trigger] root.dirs->Ok_0@[i]).name@,
                ) == "BDSVM"@ || upper(root.dirs->Ok_0@[i].name@) == "SLYVM"@ || upper(
                    root.dirs->Ok_0@[i].name@,
                ) == "ANYVM"@)
            &&& v.is_bd_java == (l.bdjo is Some && listed(l.bdjo->Some_0)->Ok_0.len() > 0)
            &&& v.is_3d == (l.ssif is Some && listed(l.ssif->Some_0)->Ok_0.len() > 0)
            &&& v.is_psp == (l.snp is Some && exists|i: int|
                0 <= i < listed(l.snp->Some_0)->Ok_0.len() && ends_like(
                    (#[trigger] listed(l.snp->Some_0)->Ok_0[i]).name@,
                    ".mnv"@,
                ))
            &&& v.is_dbox == exists|i: int|
                0 <= i < listed(root)->Ok_0.len() && same_text(
                    (#[trigger] listed(root)->Ok_0[i]).name@,
                    "FilmIndex.xml"@,
                )
            &&& says_uhd(l.bdmv) ==> v.is_uhd
            &&& index_bytes(l.bdmv) is Ok && index_bytes(l.bdmv)->Ok_0 is None ==> !v.is_uhd
            &&& v.is_aacs_encrypted == (has_key_file(root) && l.stream is Some
                && content_encrypted(l.stream->Some_0))
            &&& l.meta is None ==> v.disc_title is None
            &&& tree_size(root) is Ok
            &&& tree_size(root)->Ok_0.0 <= u64::MAX ==> v.size == tree_size(root)->Ok_0.0
            &&& tree_size(root)->Ok_0.1 <= u64::MAX ==> v.interleaved_size
                == tree_size(root)->Ok_0.1
        }),
{
    let v = level_of(root, l, pool, None).0->Ok_0;
    lemma_tree_size_nonneg(root);
    if says_uhd(l.bdmv) {
        let b = index_bytes(l.bdmv)->Ok_0->Some_0;
        let head = b.subrange(0, 8);
        assert(head[0] == b[0] && head[1] == b[1] && head[2] == b[2] && head[3] == b[3]);
        assert(head[4] == b[4] && head[5] == b[5] && head[6] == b[6] && head[7] == b[7]);
    }
    let dirs = root.dirs->Ok_0@;
    if exists|i: int|
        0 <= i < dirs.len() && #[trigger] super::discovery::is_bd_plus_name(dirs[i].name@) {
        let i = choose|i: int|
            0 <= i < dirs.len() && #[trigger] super::discovery::is_bd_plus_name(dirs[i].name@);
        assert(super::discovery::is_bd_plus_name(dirs[i].name@));
        assert(upper(dirs[i].name@) == "BDSVM"@ || upper(dirs[i].name@) == "SLYVM"@ || upper(
            dirs[i].name@,
        ) == "ANYVM"@);
    }
    if exists|i: int|
        0 <= i < dirs.len() && (upper((#[trigger] dirs[i]).name@) == "BDSVM"@ || upper(
            dirs[i].name@,
        ) == "SLYVM"@ || upper(dirs[i].name@) == "ANYVM"@) {
        let i = choose|i: int|
            0 <= i < dirs.len() && (upper((#[trigger] dirs[i]).name@) == "BDSVM"@ || upper(
                dirs[i].name@,
            ) == "SLYVM"@ || upper(dirs[i].name@) == "ANYVM"@);
        assert(super::discovery::is_bd_plus_name(dirs[i].name@));
    }
    let files = listed(root)->Ok_0;
    if any_named(files, "FilmIndex.xml"@) {
        let i = choose|i: int|
            0 <= i < files.len() && #[trigger] same_text(files[i].name@, "FilmIndex.xml"@);
        assert(same_text(files[i].name@, "FilmIndex.xml"@));
    }
    if let Some(snp) = l.snp {
        let list = listed(snp)->Ok_0;
        if v.is_psp {
            let i = choose|i: int|
                0 <= i < list.len() && #[trigger] ends_like(list[i].name@, ".mnv"@);
            assert(ends_like(list[i].name@, ".mnv"@));
        }
    }
}

proof fn lemma_tree_size_nonneg(dir: DirEntry)
    ensures
        tree_size(dir) is Ok ==> tree_size(dir)->Ok_0.0 >= 0 && tree_size(dir)->Ok_0.1 >= 0,
    decreases
            dir,
            match dir.dirs {
                Ok(dirs) => dirs@.len() + 1,
                Err(_) => 0,
            },
{
    if dir.files is Ok && dir.dirs is Ok {
        lemma_trees_size_nonneg(dir, dir.dirs->Ok_0@.len() as int);
        lemma_files_bytes_nonneg(dir.files->Ok_0@, false, dir.files->Ok_0@.len() as int);
        lemma_files_bytes_nonneg(dir.files->Ok_0@, true, dir.files->Ok_0@.len() as int);
    }
}

proof fn lemma_trees_size_nonneg(dir: DirEntry, n: int)
    requires
        dir.dirs is Ok,
        n <= dir.dirs->Ok_0@.len(),
    ensures
        trees_size(dir, n) is Ok ==> trees_size(dir, n)->Ok_0.0 >= 0 && trees_size(
            dir,
            n,
        )->Ok_0.1 >= 0,
    decreases dir, n,
{
    if n > 0 {
        lemma_trees_size_nonneg(dir, n - 1);
        lemma_tree_size_nonneg(dir.dirs->Ok_0@[n - 1]);
    }
}

proof fn lemma_files_bytes_nonneg(files: Seq<FileEntry>, interleaved: bool, n: int)
    ensures
        files_bytes(files, interleaved, n) >= 0,
    decreases n,
{
    if n > 0 {
        lemma_files_bytes_nonneg(files, interleaved, n - 1);
    }
}

/// A disc has the key file where its root has a directory called `AACS`, in any case, with the
/// file in it.
pub proof fn lemma_where_the_key_file_is(root: DirEntry, i: int, j: int)
    requires
        root.dirs is Ok,
        0 <= i < root.dirs->Ok_0@.len(),
        same_text(root.dirs->Ok_0@[i].name@, "AACS"@),
        root.dirs->Ok_0@[i].files is Ok,
        0 <= j < root.dirs->Ok_0@[i].files->Ok_0@.len(),
        same_text(root.dirs->Ok_0@[i].files->Ok_0@[j].name@, "Unit_Key_RO.inf"@),
    ensures
        has_key_file(root),
{
    let dir = root.dirs->Ok_0@[i];
    assert(same_text(dir.files->Ok_0@[j].name@, "Unit_Key_RO.inf"@));
    assert(super::discovery::is_key_dir(dir));
}

// ---- the title ----

/// The title file is the directory's own where it has one, and else that of the first of its
/// directories that has one, in it or below.
pub proof fn lemma_where_the_title_is(dir: DirEntry)
    requires
        title_file(dir) is Ok,
    ensures
        match first_named(dir.files->Ok_0@, "bdmt_eng.xml"@, 0) {
            Some(f) => title_file(dir)->Ok_0 == Some(f),
            None => match title_file(dir)->Ok_0 {
                Some(f) => exists|k: int|
                    0 <= k < dir.dirs->Ok_0@.len() && title_file(
                        #[trigger] dir.dirs->Ok_0@[k],
                    ) == Ok::<Option<FileEntry>, Failure>(Some(f)) && forall|j: int|
                        0 <= j < k ==> title_file(#[trigger] dir.dirs->Ok_0@[j]) == Ok::<
                            Option<FileEntry>,
                            Failure,
                        >(None),
                None => forall|j: int|
                    0 <= j < dir.dirs->Ok_0@.len() ==> title_file(
                        #[trigger] dir.dirs->Ok_0@[j],
                    ) == Ok::<Option<FileEntry>, Failure>(None),
            },
        },
{
    lemma_title_below(dir, dir.dirs->Ok_0@.len() as int);
}

proof fn lemma_title_below(dir: DirEntry, n: int)
    requires
        dir.dirs is Ok,
        0 <= n <= dir.dirs->Ok_0@.len(),
        title_below(dir, n) is Ok,
    ensures
        match title_below(dir, n)->Ok_0 {
            Some(f) => exists|k: int|
                0 <= k < n && title_file(#[trigger] dir.dirs->Ok_0@[k]) == Ok::<
                    Option<FileEntry>,
                    Failure,
                >(Some(f)) && forall|j: int|
                    0 <= j < k ==> title_file(#[trigger] dir.dirs->Ok_0@[j]) == Ok::<
                        Option<FileEntry>,
                        Failure,
                    >(None),
            None => forall|j: int|
                0 <= j < n ==> title_file(#[trigger] dir.dirs->Ok_0@[j]) == Ok::<
                    Option<FileEntry>,
                    Failure,
                >(None),
        },
    decreases n,
{
    if n > 0 {
        lemma_title_below(dir, n - 1);
        let dirs = dir.dirs->Ok_0@;
        if let Some(f) = title_below(dir, n)->Ok_0 {
            if let Some(g) = title_below(dir, n - 1)->Ok_0 {
                let k = choose|k: int|
                    0 <= k < n - 1 && title_file(#[trigger] dirs[k]) == Ok::<
                        Option<FileEntry>,
                        Failure,
                    >(Some(g)) && forall|j: int|
                        0 <= j < k ==> title_file(#[trigger] dirs[j]) == Ok::<
                            Option<FileEntry>,
                            Failure,
                        >(None);
                assert(0 <= k < n && title_file(dirs[k]) == Ok::<Option<FileEntry>, Failure>(
                    Some(f),
                ));
            } else {
                assert(title_file(dirs[n - 1]) == Ok::<Option<FileEntry>, Failure>(Some(f)));
            }
        }
    }
}

proof fn lemma_named_child(nodes: Seq<XmlNodeView>, parent: usize, name: Seq<char>, i: int)
    requires
        0 <= i,
    ensures
        match named_child(nodes, parent, name, i) {
            Some(k) => i <= k < nodes.len() && is_named_child(nodes[k], parent, name) && forall|
                j: int,
            |
                i <= j < k ==> !is_named_child(#[trigger] nodes[j], parent, name),
            None => forall|j: int|
                i <= j < nodes.len() ==> !is_named_child(#[trigger] nodes[j], parent, name),
        },
    decreases nodes.len() - i,
{
    if i < nodes.len() && !is_named_child(nodes[i], parent, name) {
        lemma_named_child(nodes, parent, name, i + 1);
    }
}

/// Whether a node is the first child of another that is a disc-info element of a name.
pub open spec fn is_first_named(
    nodes: Seq<XmlNodeView>,
    k: int,
    parent: int,
    name: Seq<char>,
) -> bool {
    &&& 0 <= k < nodes.len()
    &&& nodes[k].is_element
    &&& nodes[k].parent == Some(parent as usize)
    &&& nodes[k].namespace == Some("urn:BDA:bdmv;discinfo"@)
    &&& nodes[k].name == name
    &&& forall|j: int|
        0 <= j < k && (#[trigger] nodes[j]).is_element && nodes[j].parent == Some(parent as usize)
            && nodes[j].name == name ==> nodes[j].namespace != Some("urn:BDA:bdmv;discinfo"@)
}

/// A document with a name in the first title of the first disc info of its root has the text
/// of that name as its title, unless it is the placeholder.
pub proof fn lemma_the_title_of_a_document(
    nodes: Seq<XmlNodeView>,
    root: int,
    info: int,
    title: int,
    name: int,
)
    requires
        nodes.len() <= usize::MAX,
        0 <= root < nodes.len(),
        nodes[root].is_element && nodes[root].parent == Some(0usize),
        forall|j: int|
            0 <= j < root ==> !((#[trigger] nodes[j]).is_element && nodes[j].parent == Some(0usize)),
        is_first_named(nodes, info, root, "discinfo"@),
        is_first_named(nodes, title, info, "title"@),
        is_first_named(nodes, name, title, "name"@),
    ensures
        ({
            let text = text_under(nodes, name, nodes.len() as int);
            &&& same_text(text, "blu-ray"@) ==> title_of(nodes) is None
            &&& !same_text(text, "blu-ray"@) ==> title_of(nodes) == Some(text)
        }),
{
    lemma_first_element(nodes, 0, 0);
    lemma_named_child(nodes, root as usize, "discinfo"@, 0);
    lemma_named_child(nodes, info as usize, "title"@, 0);
    lemma_named_child(nodes, title as usize, "name"@, 0);
    assert(is_named_child(nodes[info], root as usize, "discinfo"@));
    assert(is_named_child(nodes[title], info as usize, "title"@));
    assert(is_named_child(nodes[name], title as usize, "name"@));
}

proof fn lemma_first_element(nodes: Seq<XmlNodeView>, parent: usize, i: int)
    requires
        0 <= i,
    ensures
        match first_element(nodes, parent, i) {
            Some(k) => i <= k < nodes.len() && nodes[k].is_element && nodes[k].parent == Some(parent)
                && forall|j: int|
                i <= j < k ==> !((#[trigger] nodes[j]).is_element && nodes[j].parent == Some(
                    parent,
                )),
            None => forall|j: int|
                i <= j < nodes.len() ==> !((#[trigger] nodes[j]).is_element && nodes[j].parent
                    == Some(parent)),
        },
    decreases nodes.len() - i,
{
    if i < nodes.len() && !(nodes[i].is_element && nodes[i].parent == Some(parent)) {
        lemma_first_element(nodes, parent, i + 1);
    }
}

/// The text under a node is that of the texts that lie in it, at any depth, one behind the
/// other in the order of the document: one node more adds its text, where it is a text and
/// lies there, and nothing else.
pub proof fn lemma_text_adds_up(nodes: Seq<XmlNodeView>, top: int, n: int)
    requires
        0 < n <= nodes.len() <= usize::MAX,
    ensures
        text_under(nodes, top, 0) == Seq::<char>::empty(),
        nodes[n - 1].is_text && nodes[n - 1].text is Some && is_under(nodes, n - 1, top)
            ==> text_under(nodes, top, n) == text_under(nodes, top, n - 1)
            + nodes[n - 1].text->Some_0,
        !(nodes[n - 1].is_text && nodes[n - 1].text is Some && is_under(nodes, n - 1, top))
            ==> text_under(nodes, top, n) == text_under(nodes, top, n - 1),
        is_under(nodes, top, top),
        forall|i: int|
            0 <= i < nodes.len() && (#[trigger] nodes[i]).parent == Some(top as usize) && 0 <= top
                < i ==> is_under(nodes, i, top),
{
    assert forall|i: int|
        0 <= i < nodes.len() && (#[trigger] nodes[i]).parent == Some(top as usize) && 0 <= top
            < i implies is_under(nodes, i, top) by {
        assert(is_under(nodes, top, top));
    }
}

} // verus!
