//! ASCII text helpers over `str` and `String`.

use vstd::prelude::*;
use vstd::string::*;

verus! {

/// The view of an optional text.
pub open spec fn text_view(t: Option<String>) -> Option<Seq<char>> {
    match t {
        Some(s) => Some(s@),
        None => None,
    }
}

/// The ASCII upper-case form of one character; every other character is its own.
pub open spec fn upper_char(c: char) -> char {
    if 'a' <= c && c <= 'z' {
        ((c as u32 - 32) as u8) as char
    } else {
        c
    }
}

/// A text with every character in ASCII upper case.
pub open spec fn upper(s: Seq<char>) -> Seq<char> {
    s.map_values(|c: char| upper_char(c))
}

/// Whether two texts differ in ASCII case at most.
pub open spec fn same_text(a: Seq<char>, b: Seq<char>) -> bool {
    upper(a) == upper(b)
}

/// Appends one character, by `String::push`: the text grows by exactly that
/// character, at its end.
#[verifier::external_body]
pub(crate) fn push_char(s: &mut String, c: char)
    ensures
        final(s)@ == old(s)@.push(c),
{
    s.push(c);
}

/// The ASCII upper-case form of `c`.
pub fn to_upper_char(c: char) -> (r: char)
    ensures
        r == upper_char(c),
{
    if 'a' <= c && c <= 'z' {
        ((c as u32 - 32) as u8) as char
    } else {
        c
    }
}

/// `s` with every character in ASCII upper case.
pub fn to_ascii_uppercase(s: &str) -> (r: String)
    ensures
        r@ == upper(s@),
{
    let n: usize = s.unicode_len();
    let mut out = String::new();
    let mut i: usize = 0;
    while i < n
        invariant
            i <= n,
            n == s@.len(),
            out@ == upper(s@.subrange(0, i as int)),
        decreases n - i,
    {
        let c = s.get_char(i);
        push_char(&mut out, to_upper_char(c));
        proof {
            assert(s@.subrange(0, i + 1) =~= s@.subrange(0, i as int).push(s@[i as int]));
            assert(out@ =~= upper(s@.subrange(0, i + 1)));
        }
        i = i + 1;
    }
    proof {
        assert(s@.subrange(0, n as int) =~= s@);
    }
    out
}

/// Whether `a` and `b` differ in ASCII case at most.
pub fn eq_ignore_ascii_case(a: &str, b: &str) -> (r: bool)
    ensures
        r == same_text(a@, b@),
{
    let n: usize = a.unicode_len();
    if n != b.unicode_len() {
        proof {
            assert(upper(a@).len() != upper(b@).len());
        }
        return false;
    }
    let mut i: usize = 0;
    while i < n
        invariant
            i <= n,
            n == a@.len(),
            n == b@.len(),
            forall|k: int| 0 <= k < i ==> upper_char(#[trigger] a@[k]) == upper_char(b@[k]),
        decreases n - i,
    {
        if to_upper_char(a.get_char(i)) != to_upper_char(b.get_char(i)) {
            proof {
                assert(upper(a@)[i as int] != upper(b@)[i as int]);
            }
            return false;
        }
        i = i + 1;
    }
    proof {
        assert(upper(a@) =~= upper(b@));
    }
    true
}

/// Whether `a` and `b` are the same text.
pub fn same(a: &str, b: &str) -> (r: bool)
    ensures
        r == (a@ == b@),
{
    let n: usize = a.unicode_len();
    if n != b.unicode_len() {
        return false;
    }
    let mut i: usize = 0;
    while i < n
        invariant
            i <= n,
            n == a@.len(),
            n == b@.len(),
            forall|k: int| 0 <= k < i ==> #[trigger] a@[k] == b@[k],
        decreases n - i,
    {
        if a.get_char(i) != b.get_char(i) {
            return false;
        }
        i = i + 1;
    }
    proof {
        assert(a@ =~= b@);
    }
    true
}

/// Whether `a` comes before `b`, from the `i`th character on: by the first character that
/// differs, or by being the shorter one.
pub open spec fn before_from(a: Seq<char>, b: Seq<char>, i: int) -> bool
    decreases a.len() - i,
{
    if i < 0 || i >= a.len() {
        i < b.len()
    } else if i >= b.len() {
        false
    } else if a[i] != b[i] {
        a[i] < b[i]
    } else {
        before_from(a, b, i + 1)
    }
}

/// Whether `a` comes before `b`, character by character.
pub open spec fn before(a: Seq<char>, b: Seq<char>) -> bool {
    before_from(a, b, 0)
}

/// Whether `a` comes before `b`, character by character.
pub fn comes_before(a: &str, b: &str) -> (r: bool)
    ensures
        r == before(a@, b@),
{
    let n: usize = a.unicode_len();
    let m: usize = b.unicode_len();
    let mut i: usize = 0;
    while i < n && i < m
        invariant
            i <= n,
            i <= m,
            n == a@.len(),
            m == b@.len(),
            before_from(a@, b@, i as int) == before(a@, b@),
        decreases n - i,
    {
        let x = a.get_char(i);
        let y = b.get_char(i);
        if x != y {
            return x < y;
        }
        i = i + 1;
    }
    i < m
}

/// Whether a text ends in another, ASCII case aside.
pub open spec fn ends_like(s: Seq<char>, tail: Seq<char>) -> bool {
    tail.len() <= s.len() && same_text(s.subrange(s.len() - tail.len(), s.len() as int), tail)
}

/// Whether `s` ends in `tail`, ASCII case aside.
pub fn has_ending(s: &str, tail: &str) -> (r: bool)
    ensures
        r == ends_like(s@, tail@),
{
    let n: usize = s.unicode_len();
    let m: usize = tail.unicode_len();
    m <= n && eq_ignore_ascii_case(s.substring_char(n - m, n), tail)
}

/// Upper-casing twice is upper-casing once.
pub proof fn lemma_upper_is_idempotent(s: Seq<char>)
    ensures
        upper(upper(s)) == upper(s),
{
    assert(upper(upper(s)) =~= upper(s));
}

} // verus!
