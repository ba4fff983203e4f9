//! Tables keyed by upper-cased file names.

use vstd::prelude::*;
use vstd::string::*;

use crate::text::same;

verus! {

/// The value under `name` among the entries from the `i`th on.
pub open spec fn find_from<V>(s: Seq<(Seq<char>, V)>, name: Seq<char>, i: int) -> Option<V>
    decreases s.len() - i,
{
    if i < 0 || i >= s.len() {
        None
    } else if s[i].0 == name {
        Some(s[i].1)
    } else {
        find_from(s, name, i + 1)
    }
}

/// The value under `name`.
pub open spec fn find<V>(s: Seq<(Seq<char>, V)>, name: Seq<char>) -> Option<V> {
    find_from(s, name, 0)
}

/// The entries with `value` under `name` from the `i`th on: in the place of the value that
/// was there, or behind all the others.
pub open spec fn put_from<V>(s: Seq<(Seq<char>, V)>, name: Seq<char>, value: V, i: int) -> Seq<
    (Seq<char>, V),
>
    decreases s.len() - i,
{
    if i < 0 || i >= s.len() {
        s.push((name, value))
    } else if s[i].0 == name {
        s.update(i, (name, value))
    } else {
        put_from(s, name, value, i + 1)
    }
}

/// The entries with `value` under `name`.
pub open spec fn put<V>(s: Seq<(Seq<char>, V)>, name: Seq<char>, value: V) -> Seq<(Seq<char>, V)> {
    put_from(s, name, value, 0)
}

/// Whether no name occurs twice.
pub open spec fn distinct<V>(s: Seq<(Seq<char>, V)>) -> bool {
    forall|i: int, j: int| 0 <= i < j < s.len() ==> s[i].0 != s[j].0
}

/// One entry of a table.
#[derive(Debug)]
pub struct NameEntry<V> {
    /// The name.
    pub name: String,
    /// What stands under it.
    pub value: V,
}

/// A table keyed by file names.
#[derive(Debug)]
pub struct NameTable<V> {
    entries: Vec<NameEntry<V>>,
}

impl<V> View for NameTable<V> {
    type V = Seq<(Seq<char>, V)>;

    closed spec fn view(&self) -> Seq<(Seq<char>, V)> {
        self.entries@.map_values(|e: NameEntry<V>| (e.name@, e.value))
    }
}

impl<V> NameTable<V> {
    /// A table without entries.
    pub fn new() -> (r: Self)
        ensures
            r@ == Seq::<(Seq<char>, V)>::empty(),
    {
        let r = NameTable { entries: Vec::new() };
        proof {
            assert(r@ =~= Seq::<(Seq<char>, V)>::empty());
        }
        r
    }

    /// How many entries there are.
    pub fn len(&self) -> (r: usize)
        ensures
            r == self@.len(),
    {
        self.entries.len()
    }

    /// The name of the `i`th entry.
    pub fn name_at(&self, i: usize) -> (r: &str)
        requires
            i < self@.len(),
        ensures
            r@ == self@[i as int].0,
    {
        self.entries[i].name.as_str()
    }

    /// The value of the `i`th entry.
    pub fn value_at(&self, i: usize) -> (r: &V)
        requires
            i < self@.len(),
        ensures
            *r == self@[i as int].1,
    {
        &self.entries[i].value
    }

    /// The value under `name`.
    pub fn get(&self, name: &str) -> (r: Option<&V>)
        ensures
            match r {
                Some(v) => find(self@, name@) == Some(*v),
                None => find(self@, name@) is None,
            },
    {
        let mut i: usize = 0;
        while i < self.entries.len()
            invariant
                i <= self.entries@.len(),
                find_from(self@, name@, i as int) == find(self@, name@),
            decreases self.entries@.len() - i,
        {
            assert(self@[i as int] == (self.entries@[i as int].name@, self.entries@[i as int].value));
            if same(self.entries[i].name.as_str(), name) {
                return Some(&self.entries[i].value);
            }
            i = i + 1;
        }
        None
    }

    /// Whether there is a value under `name`.
    pub fn contains_key(&self, name: &str) -> (r: bool)
        ensures
            r == (find(self@, name@) is Some),
    {
        self.get(name).is_some()
    }

    /// Puts `value` under `name`.
    pub fn insert(&mut self, name: String, value: V)
        ensures
            final(self)@ == put(old(self)@, name@, value),
    {
        let ghost was = self@;
        let mut i: usize = 0;
        while i < self.entries.len()
            invariant
                i <= self.entries@.len(),
                self@ == was,
                was == old(self)@,
                put_from(was, name@, value, i as int) == put(was, name@, value),
            decreases self.entries@.len() - i,
        {
            assert(self@[i as int] == (self.entries@[i as int].name@, self.entries@[i as int].value));
            if same(self.entries[i].name.as_str(), name.as_str()) {
                self.entries[i].value = value;
                proof {
                    assert(self@ =~= was.update(i as int, (name@, value)));
                }
                return;
            }
            i = i + 1;
        }
        self.entries.push(NameEntry { name, value });
        proof {
            assert(self@ =~= was.push((name@, value)));
        }
    }
}

proof fn lemma_put_from<V>(s: Seq<(Seq<char>, V)>, name: Seq<char>, value: V, i: int, other: Seq<char>)
    requires
        0 <= i <= s.len(),
        distinct(s),
        forall|k: int| 0 <= k < i ==> #[trigger] s[k].0 != name,
    ensures
        ({
            let t = put_from(s, name, value, i);
            &&& distinct(t)
            &&& t.len() >= s.len()
            &&& forall|k: int| 0 <= k < i ==> t[k] == s[k]
            &&& find_from(t, name, i) == Some(value)
            &&& other != name ==> find_from(t, other, i) == find_from(s, other, i)
        }),
    decreases s.len() - i,
{
    let t = put_from(s, name, value, i);
    if i >= s.len() {
        assert(t[i] == (name, value));
        if other != name {
            assert(find_from(t, other, i + 1) is None);
        }
    } else if s[i].0 == name {
        if other != name {
            lemma_find_same_tail(s, t, other, i + 1);
        }
    } else {
        lemma_put_from(s, name, value, i + 1, other);
    }
}

proof fn lemma_find_same_tail<V>(
    s: Seq<(Seq<char>, V)>,
    t: Seq<(Seq<char>, V)>,
    name: Seq<char>,
    i: int,
)
    requires
        s.len() == t.len(),
        0 <= i,
        forall|k: int| i <= k < s.len() ==> s[k] == t[k],
    ensures
        find_from(s, name, i) == find_from(t, name, i),
    decreases s.len() - i,
{
    if i < s.len() {
        assert(s[i] == t[i]);
        lemma_find_same_tail(s, t, name, i + 1);
    }
}

/// A table gives back what was last put under a name, keeps what stands under every other
/// name, and never has a name twice.
pub proof fn lemma_put_find<V>(s: Seq<(Seq<char>, V)>, name: Seq<char>, value: V, other: Seq<char>)
    requires
        distinct(s),
    ensures
        distinct(put(s, name, value)),
        find(put(s, name, value), name) == Some(value),
        other != name ==> find(put(s, name, value), other) == find(s, other),
{
    lemma_put_from(s, name, value, 0, other);
}

/// The view of a table: its values by their views.
pub open spec fn table_views<V: View>(t: Seq<(Seq<char>, V)>) -> Seq<(Seq<char>, V::V)> {
    t.map_values(|e: (Seq<char>, V)| (e.0, e.1@))
}

proof fn lemma_find_from_views<V: View>(t: Seq<(Seq<char>, V)>, name: Seq<char>, i: int)
    requires
        0 <= i,
    ensures
        find_from(table_views(t), name, i) == (match find_from(t, name, i) {
            Some(v) => Some(v@),
            None => None,
        }),
    decreases t.len() - i,
{
    if i < t.len() && t[i].0 != name {
        lemma_find_from_views(t, name, i + 1);
    }
}

/// What stands under a name in the view of a table is the view of what stands there.
pub proof fn lemma_find_views<V: View>(t: Seq<(Seq<char>, V)>, name: Seq<char>)
    ensures
        find(table_views(t), name) == (match find(t, name) {
            Some(v) => Some(v@),
            None => None,
        }),
{
    lemma_find_from_views(t, name, 0);
}

proof fn lemma_put_from_views<V: View>(t: Seq<(Seq<char>, V)>, name: Seq<char>, v: V, i: int)
    requires
        0 <= i,
    ensures
        table_views(put_from(t, name, v, i)) == put_from(table_views(t), name, v@, i),
    decreases t.len() - i,
{
    if i >= t.len() {
        assert(table_views(t.push((name, v))) =~= table_views(t).push((name, v@)));
    } else if t[i].0 == name {
        assert(table_views(t.update(i, (name, v))) =~= table_views(t).update(i, (name, v@)));
    } else {
        lemma_put_from_views(t, name, v, i + 1);
    }
}

/// To put a value into a table is to put its view into the view.
pub proof fn lemma_put_views<V: View>(t: Seq<(Seq<char>, V)>, name: Seq<char>, v: V)
    ensures
        table_views(put(t, name, v)) == put(table_views(t), name, v@),
{
    lemma_put_from_views(t, name, v, 0);
}

} // verus!
