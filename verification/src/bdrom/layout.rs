//! Bytes that stand in others.

use vstd::prelude::*;

use super::{rd16, rd32};

verus! {

/// Whether `bytes` stand in `d` from `k` on.
pub open spec fn stands(d: Seq<u8>, k: int, bytes: Seq<u8>) -> bool {
    &&& 0 <= k
    &&& k + bytes.len() <= d.len()
    &&& d.subrange(k, k + bytes.len()) == bytes
}

/// Each of the bytes stands in its place.
pub proof fn lemma_stands_each(d: Seq<u8>, k: int, bytes: Seq<u8>)
    requires
        stands(d, k, bytes),
    ensures
        forall|i: int| 0 <= i < bytes.len() ==> d[k + i] == #[trigger] bytes[i],
{
    let part = d.subrange(k, k + bytes.len());
    assert forall|i: int| 0 <= i < bytes.len() implies d[k + i] == #[trigger] bytes[i] by {
        assert(part[i] == d[k + i]);
    }
}

/// The one part stands where the whole does, and the other behind it.
pub proof fn lemma_stands_parts(d: Seq<u8>, k: int, a: Seq<u8>, b: Seq<u8>)
    requires
        stands(d, k, a + b),
    ensures
        stands(d, k, a),
        stands(d, k + a.len(), b),
{
    let all = a + b;
    let part = d.subrange(k, k + all.len());
    assert(part.subrange(0, a.len() as int) =~= a);
    assert(part.subrange(0, a.len() as int) =~= d.subrange(k, k + a.len()));
    assert(part.subrange(a.len() as int, all.len() as int) =~= b);
    assert(part.subrange(a.len() as int, all.len() as int) =~= d.subrange(
        k + a.len(),
        k + a.len() + b.len(),
    ));
}

/// A number of two bytes, the high one first.
pub open spec fn two_bytes(x: u16) -> Seq<u8> {
    seq![(x / 0x100) as u8, (x % 0x100) as u8]
}

/// A number of four bytes, the highest first.
pub open spec fn four_bytes(x: u32) -> Seq<u8> {
    seq![
        (x / 0x100_0000) as u8,
        (x / 0x1_0000 % 0x100) as u8,
        (x / 0x100 % 0x100) as u8,
        (x % 0x100) as u8,
    ]
}

/// Four bytes read back as the number that they were written from.
pub proof fn lemma_four(d: Seq<u8>, k: int, x: u32)
    requires
        stands(d, k, four_bytes(x)),
    ensures
        rd32(d, k) == Some(x),
{
    let b = four_bytes(x);
    lemma_stands_each(d, k, b);
    assert(d[k + 0] == b[0] && d[k + 1] == b[1] && d[k + 2] == b[2] && d[k + 3] == b[3]);
    let n = x as int;
    assert(n == n / 0x100_0000 * 0x100_0000 + n / 0x1_0000 % 0x100 * 0x1_0000 + n / 0x100 % 0x100
        * 0x100 + n % 0x100) by (nonlinear_arith)
        requires
            0 <= n,
    ;
}

/// Two bytes read back as the number that they were written from.
pub proof fn lemma_two(d: Seq<u8>, k: int, x: u16)
    requires
        stands(d, k, two_bytes(x)),
    ensures
        rd16(d, k) == Some(x),
{
    let b = two_bytes(x);
    lemma_stands_each(d, k, b);
    assert(d[k + 0] == b[0] && d[k + 1] == b[1]);
}

} // verus!
