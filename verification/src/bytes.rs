//! Bounds-checked reads over a byte buffer.

use vstd::prelude::*;
use vstd::string::*;

use crate::text::push_char;

verus! {

/// The big-endian 16-bit number at `off`.
pub open spec fn be16(s: Seq<u8>, off: int) -> u16 {
    (s[off] as int * 0x100 + s[off + 1] as int) as u16
}

/// The big-endian 32-bit number at `off`.
pub open spec fn be32(s: Seq<u8>, off: int) -> u32 {
    (s[off] as int * 0x100_0000 + s[off + 1] as int * 0x1_0000 + s[off + 2] as int * 0x100 + s[off
        + 3] as int) as u32
}

/// The character an ASCII byte stands for; `'?'` for any other byte.
pub open spec fn ascii_char(b: u8) -> char {
    if b < 0x80 {
        b as char
    } else {
        '?'
    }
}

/// The text that ASCII bytes spell.
pub open spec fn ascii_text(s: Seq<u8>) -> Seq<char> {
    s.map_values(|b: u8| ascii_char(b))
}

/// The byte at `off`, or `None` past the end.
pub fn read_u8(buf: &[u8], off: usize) -> (r: Option<u8>)
    ensures
        r == (if off < buf@.len() {
            Some(buf@[off as int])
        } else {
            None
        }),
{
    if off < buf.len() {
        Some(buf[off])
    } else {
        None
    }
}

/// The big-endian `u16` at `off`, or `None` past the end.
pub fn read_u16_be(buf: &[u8], off: usize) -> (r: Option<u16>)
    ensures
        r == (if off + 2 <= buf@.len() {
            Some(be16(buf@, off as int))
        } else {
            None
        }),
{
    let n: usize = buf.len();
    if n >= 2 && off <= n - 2 {
        Some(buf[off] as u16 * 0x100 + buf[off + 1] as u16)
    } else {
        None
    }
}

/// The big-endian `u32` at `off`, or `None` past the end.
pub fn read_u32_be(buf: &[u8], off: usize) -> (r: Option<u32>)
    ensures
        r == (if off + 4 <= buf@.len() {
            Some(be32(buf@, off as int))
        } else {
            None
        }),
{
    let n: usize = buf.len();
    if n >= 4 && off <= n - 4 {
        Some(
            buf[off] as u32 * 0x100_0000 + buf[off + 1] as u32 * 0x1_0000 + buf[off + 2] as u32
                * 0x100 + buf[off + 3] as u32,
        )
    } else {
        None
    }
}

/// The `count` bytes at `off` as text (a non-ASCII byte reads `'?'`), or `None`
/// past the end.
pub fn read_ascii(buf: &[u8], off: usize, count: usize) -> (r: Option<String>)
    ensures
        r is Some <==> off + count <= buf@.len(),
        r is Some ==> r->Some_0@ == ascii_text(buf@.subrange(off as int, off + count)),
{
    let n: usize = buf.len();
    if count > n || off > n - count {
        return None;
    }
    let mut out = String::new();
    let mut i: usize = 0;
    while i < count
        invariant
            i <= count,
            n == buf@.len(),
            off + count <= n,
            out@ == ascii_text(buf@.subrange(off as int, off + i)),
        decreases count - i,
    {
        let b: u8 = buf[off + i];
        let c = if b < 0x80 {
            b as char
        } else {
            '?'
        };
        push_char(&mut out, c);
        proof {
            assert(out@ =~= ascii_text(buf@.subrange(off as int, off + i + 1)));
        }
        i = i + 1;
    }
    Some(out)
}

} // verus!
