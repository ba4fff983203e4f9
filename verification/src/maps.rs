//! Maps keyed by packet identifiers, walked in ascending order.

use std::collections::BTreeMap;

use vstd::prelude::*;
use vstd::std_specs::btree::*;
use vstd::std_specs::cmp::OrdSpec;
use vstd::std_specs::iter::IteratorSpec;

verus! {

/// The members of `dom` that are at least `k`, in ascending order.
pub open spec fn keys_from(dom: Set<u16>, k: int) -> Seq<u16>
    decreases 0x1_0000 - k,
{
    if k >= 0x1_0000 {
        Seq::empty()
    } else if dom.contains(k as u16) {
        seq![k as u16] + keys_from(dom, k + 1)
    } else {
        keys_from(dom, k + 1)
    }
}

/// The members of `dom` in ascending order.
pub open spec fn sorted_keys(dom: Set<u16>) -> Seq<u16> {
    keys_from(dom, 0)
}

/// The views of a map's values.
pub open spec fn views<V: View>(m: Map<u16, V>) -> Map<u16, V::V> {
    m.map_values(|v: V| v@)
}

/// Setting a value sets its view.
pub broadcast proof fn lemma_views_insert<V: View>(m: Map<u16, V>, k: u16, v: V)
    ensures
        #[trigger] views(m.insert(k, v)) == views(m).insert(k, v@),
{
    assert(views(m.insert(k, v)) =~= views(m).insert(k, v@));
}

/// An ascending sequence that holds exactly the members of `dom` from `k` on is
/// `keys_from(dom, k)`.
proof fn lemma_keys_from(dom: Set<u16>, k: int, s: Seq<u16>)
    requires
        0 <= k <= 0x1_0000,
        forall|i: int, j: int| 0 <= i < j < s.len() ==> s[i] < s[j],
        forall|i: int| 0 <= i < s.len() ==> s[i] as int >= k && dom.contains(#[trigger] s[i]),
        forall|x: u16| x as int >= k && #[trigger] dom.contains(x) ==> s.contains(x),
    ensures
        s == keys_from(dom, k),
    decreases 0x1_0000 - k,
{
    if k >= 0x1_0000 {
        if s.len() > 0 {
            assert(s[0] as int >= k);
        }
        assert(s =~= Seq::empty());
    } else if dom.contains(k as u16) {
        assert(s.contains(k as u16));
        let p = choose|p: int| 0 <= p < s.len() && s[p] == k as u16;
        assert(s[0] as int >= k);
        assert(p == 0);
        let t = s.drop_first();
        assert forall|i: int| 0 <= i < t.len() implies t[i] as int >= k + 1 && dom.contains(
            #[trigger] t[i],
        ) by {
            assert(t[i] == s[i + 1]);
            assert(s[0] < s[i + 1]);
        }
        assert forall|x: u16| x as int >= k + 1 && #[trigger] dom.contains(x) implies t.contains(
            x,
        ) by {
            assert(s.contains(x));
            let q = choose|q: int| 0 <= q < s.len() && s[q] == x;
            assert(q > 0);
            assert(t[q - 1] == x);
        }
        lemma_keys_from(dom, k + 1, t);
        assert(s =~= seq![k as u16] + t);
    } else {
        assert forall|i: int| 0 <= i < s.len() implies s[i] as int >= k + 1 && dom.contains(
            #[trigger] s[i],
        ) by {
            assert(s[i] != k as u16);
        }
        lemma_keys_from(dom, k + 1, s);
    }
}

/// `keys_from` is ascending and holds exactly the members from `k` on.
pub proof fn lemma_keys_from_members(dom: Set<u16>, k: int)
    requires
        0 <= k <= 0x1_0000,
    ensures
        forall|i: int, j: int|
            0 <= i < j < keys_from(dom, k).len() ==> keys_from(dom, k)[i] < keys_from(dom, k)[j],
        forall|i: int|
            0 <= i < keys_from(dom, k).len() ==> (#[trigger] keys_from(dom, k)[i]) as int >= k
                && dom.contains(keys_from(dom, k)[i]),
        forall|x: u16|
            x as int >= k && #[trigger] dom.contains(x) ==> keys_from(dom, k).contains(x),
    decreases 0x1_0000 - k,
{
    if k < 0x1_0000 {
        lemma_keys_from_members(dom, k + 1);
        let t = keys_from(dom, k + 1);
        let s = keys_from(dom, k);
        if dom.contains(k as u16) {
            assert(s =~= seq![k as u16] + t);
            assert forall|x: u16| x as int >= k && #[trigger] dom.contains(x) implies s.contains(
                x,
            ) by {
                if x == k as u16 {
                    assert(s[0] == x);
                } else {
                    assert(t.contains(x));
                    let q = choose|q: int| 0 <= q < t.len() && t[q] == x;
                    assert(s[q + 1] == x);
                }
            }
        }
    }
}

/// An ascending sequence of exactly the members of `dom` is `sorted_keys(dom)`.
proof fn lemma_sorted_keys(dom: Set<u16>, s: Seq<u16>)
    requires
        forall|i: int, j: int| 0 <= i < j < s.len() ==> s[i] < s[j],
        forall|i: int| 0 <= i < s.len() ==> dom.contains(#[trigger] s[i]),
        forall|x: u16| #[trigger] dom.contains(x) ==> s.contains(x),
    ensures
        s == sorted_keys(dom),
{
    lemma_keys_from(dom, 0, s);
}

/// What `increasing_seq` says of integers.
proof fn lemma_increasing(s: Seq<u16>)
    requires
        increasing_seq(s),
    ensures
        forall|i: int, j: int| 0 <= i < j < s.len() ==> s[i] < s[j],
{
    broadcast use group_btree_axioms;

    assert forall|i: int, j: int| 0 <= i < j < s.len() implies s[i] < s[j] by {
        assert(s[i].cmp_spec(&s[j]) is Less);
    }
}

/// The keys of `m`, in ascending order.
pub fn pids<V>(m: &BTreeMap<u16, V>) -> (r: Vec<u16>)
    ensures
        r@ == sorted_keys(m@.dom()),
{
    broadcast use group_btree_axioms;

    let mut out: Vec<u16> = Vec::new();
    let ghost all = m.iter().remaining();
    for kv in it: m.iter()
        invariant
            it.seq() == all,
            out@.len() == it.index(),
            forall|i: int| 0 <= i < out@.len() ==> out@[i] == *all[i].0,
    {
        out.push(*kv.0);
    }
    proof {
        let ks = all.map_values(|kv: (&u16, &V)| *kv.0);
        assert(out@ =~= ks);
        lemma_increasing(ks);
        assert forall|i: int| 0 <= i < out@.len() implies m@.dom().contains(#[trigger] out@[i]) by {
            assert(m@.contains_key(*all[i].0));
        }
        assert forall|x: u16| #[trigger] m@.dom().contains(x) implies out@.contains(x) by {
            assert(m@.contains_key(x));
            assert(all.contains((&x, &m@[x])));
            let q = choose|q: int| 0 <= q < all.len() && all[q] == (&x, &m@[x]);
            assert(out@[q] == x);
        }
        lemma_sorted_keys(m@.dom(), out@);
    }
    out
}

} // verus!
