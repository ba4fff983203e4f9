//! What the search for encrypted stream files does not rest on: the order of the listing.

use vstd::prelude::*;

use super::discovery::{
    content_encrypted, is_kind, sample, sampled_before, BdFileKind, DirEntry, FileEntry,
};
use super::open_laws::{lemma_before_is_asymmetric, lemma_before_is_transitive};
use crate::text::before_from;

verus! {

proof fn lemma_before_is_total(a: Seq<char>, b: Seq<char>, i: int)
    requires
        0 <= i <= a.len(),
        i <= b.len(),
        a.subrange(0, i) == b.subrange(0, i),
        a != b,
    ensures
        before_from(a, b, i) || before_from(b, a, i),
    decreases a.len() - i,
{
    if i < a.len() && i < b.len() {
        if a[i] == b[i] {
            assert(a.subrange(0, i + 1) =~= a.subrange(0, i).push(a[i]));
            assert(b.subrange(0, i + 1) =~= b.subrange(0, i).push(b[i]));
            lemma_before_is_total(a, b, i + 1);
        }
    } else if i == a.len() && i == b.len() {
        assert(a =~= a.subrange(0, i));
        assert(b =~= b.subrange(0, i));
    }
}

/// Whether no two stream files of a listing have the same name.
pub open spec fn names_apart(files: Seq<FileEntry>) -> bool {
    forall|i: int, j: int|
        #![trigger files[i], files[j]]
        0 <= i < j < files.len() && is_kind(files[i].name@, BdFileKind::Stream) && is_kind(
            files[j].name@,
            BdFileKind::Stream,
        ) ==> files[i].name@ != files[j].name@
}

/// Whether a file of a list can be a sample.
spec fn eligible(files: Seq<FileEntry>, skip: Option<int>, n: int, k: int) -> bool {
    0 <= k < n && skip != Some(k) && is_kind(files[k].name@, BdFileKind::Stream)
}

proof fn lemma_sampled_one_way(a: FileEntry, b: FileEntry)
    requires
        a.name@ != b.name@,
    ensures
        sampled_before(a, b) <==> !sampled_before(b, a),
{
    assert(a.name@.subrange(0, 0) =~= b.name@.subrange(0, 0));
    lemma_before_is_total(a.name@, b.name@, 0);
    lemma_before_is_asymmetric(a.name@, b.name@, 0);
}

proof fn lemma_sampled_in_turn(a: FileEntry, b: FileEntry, c: FileEntry)
    requires
        sampled_before(a, b),
        sampled_before(b, c),
    ensures
        sampled_before(a, c),
{
    if a.length == b.length && b.length == c.length {
        lemma_before_is_transitive(a.name@, b.name@, c.name@, 0);
    }
}

proof fn lemma_sample_is_first(files: Seq<FileEntry>, skip: Option<int>, n: int)
    requires
        0 <= n <= files.len(),
        names_apart(files),
    ensures
        match sample(files, skip, n) {
            Some(k) => eligible(files, skip, n, k) && forall|j: int|
                j != k && #[trigger] eligible(files, skip, n, j) ==> sampled_before(
                    files[k],
                    files[j],
                ),
            None => forall|j: int| !#[trigger] eligible(files, skip, n, j),
        },
    decreases n,
{
    if n > 0 {
        lemma_sample_is_first(files, skip, n - 1);
        let so_far = sample(files, skip, n - 1);
        let now = sample(files, skip, n);
        assert forall|j: int| #[trigger] eligible(files, skip, n, j) implies (eligible(
            files,
            skip,
            n - 1,
            j,
        ) || j == n - 1) by {}
        if eligible(files, skip, n, n - 1) {
            if let Some(k) = so_far {
                assert(files[k].name@ != files[n - 1].name@);
                lemma_sampled_one_way(files[n - 1], files[k]);
                assert forall|j: int| j != now->Some_0 && #[trigger] eligible(
                    files,
                    skip,
                    n,
                    j,
                ) implies sampled_before(files[now->Some_0], files[j]) by {
                    if j != n - 1 && j != k {
                        assert(eligible(files, skip, n - 1, j));
                        if now == Some(n - 1) {
                            lemma_sampled_in_turn(files[n - 1], files[k], files[j]);
                        }
                    }
                }
            }
        }
    }
}

/// Whether two listings have the same files.
pub open spec fn same_files(a: Seq<FileEntry>, b: Seq<FileEntry>) -> bool {
    forall|f: FileEntry| #[trigger] a.contains(f) <==> b.contains(f)
}

/// The samples of two listings of the same files: the same, or none in either.
proof fn lemma_same_sample(
    a: Seq<FileEntry>,
    skip_a: Option<int>,
    b: Seq<FileEntry>,
    skip_b: Option<int>,
)
    requires
        same_files(a, b),
        names_apart(a),
        names_apart(b),
        match (skip_a, skip_b) {
            (Some(i), Some(j)) => 0 <= i < a.len() && 0 <= j < b.len() && a[i] == b[j] && is_kind(
                a[i].name@,
                BdFileKind::Stream,
            ),
            (None, None) => true,
            _ => false,
        },
    ensures
        match (sample(a, skip_a, a.len() as int), sample(b, skip_b, b.len() as int)) {
            (Some(i), Some(j)) => 0 <= i < a.len() && 0 <= j < b.len() && a[i] == b[j] && is_kind(
                a[i].name@,
                BdFileKind::Stream,
            ),
            (None, None) => true,
            _ => false,
        },
{
    let n = a.len() as int;
    let m = b.len() as int;
    lemma_sample_is_first(a, skip_a, n);
    lemma_sample_is_first(b, skip_b, m);
    if let Some(i) = sample(a, skip_a, n) {
        assert(a.contains(a[i]));
        let at = choose|at: int| 0 <= at < b.len() && b[at] == a[i];
        assert(eligible(b, skip_b, m, at)) by {
            if skip_b == Some(at) {
                let s = skip_a->Some_0;
                assert(a[s] == a[i]);
                if s < i {
                    assert(a[s].name@ != a[i].name@);
                } else {
                    assert(a[i].name@ != a[s].name@);
                }
            }
        }
        let j = sample(b, skip_b, m)->Some_0;
        assert(b.contains(b[j]));
        assert(a.contains(b[j]));
        let from = choose|from: int| 0 <= from < a.len() && a[from] == b[j];
        assert(eligible(a, skip_a, n, from)) by {
            if skip_a == Some(from) {
                let s = skip_b->Some_0;
                assert(b[s] == b[j]);
                if s < j {
                    assert(b[s].name@ != b[j].name@);
                } else {
                    assert(b[j].name@ != b[s].name@);
                }
            }
        }
        if at != j {
            assert(sampled_before(b[j], a[i]));
            assert(from != i) by {
                if from == i {
                    assert(b[at] == b[j]);
                    if at < j {
                        assert(b[at].name@ != b[j].name@);
                    } else {
                        assert(b[j].name@ != b[at].name@);
                    }
                }
            }
            assert(sampled_before(a[i], b[j]));
            lemma_before_is_asymmetric(a[i].name@, b[j].name@, 0);
        }
    } else if let Some(j) = sample(b, skip_b, m) {
        assert(b.contains(b[j]));
        assert(a.contains(b[j]));
        let from = choose|from: int| 0 <= from < a.len() && a[from] == b[j];
        assert(eligible(a, skip_a, n, from)) by {
            if skip_a == Some(from) {
                let s = skip_b->Some_0;
                assert(b[s] == b[j]);
                if s < j {
                    assert(b[s].name@ != b[j].name@);
                } else {
                    assert(b[j].name@ != b[s].name@);
                }
            }
        }
    }
}

/// Whether the stream files look encrypted does not rest on the order in which a directory
/// lists them, as long as their names differ.
pub proof fn lemma_listing_order_makes_no_difference(a: DirEntry, b: DirEntry)
    requires
        a.files is Ok,
        b.files is Ok,
        same_files(a.files->Ok_0@, b.files->Ok_0@),
        names_apart(a.files->Ok_0@),
        names_apart(b.files->Ok_0@),
    ensures
        content_encrypted(a) == content_encrypted(b),
{
    let x = a.files->Ok_0@;
    let y = b.files->Ok_0@;
    lemma_same_sample(x, None, y, None);
    if let Some(i) = sample(x, None, x.len() as int) {
        let j = sample(y, None, y.len() as int)->Some_0;
        lemma_same_sample(x, Some(i), y, Some(j));
    }
}

} // verus!
