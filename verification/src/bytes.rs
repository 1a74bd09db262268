//! Byte strings and the big-endian numbers that every wire format of the
//! node is made of.

use vstd::prelude::*;
use vstd::slice::slice_subrange;
use vstd::slice::slice_to_vec;

verus! {

/// The two bytes of `x`, most significant first.
pub open spec fn be_u16(x: u16) -> Seq<u8> {
    seq![(x / 0x100) as u8, (x % 0x100) as u8]
}

/// The four bytes of `x`, most significant first.
pub open spec fn be_u32(x: u32) -> Seq<u8> {
    be_u16((x / 0x1_0000) as u16) + be_u16((x % 0x1_0000) as u16)
}

/// The eight bytes of `x`, most significant first.
pub open spec fn be_u64(x: u64) -> Seq<u8> {
    be_u32((x / 0x1_0000_0000) as u32) + be_u32((x % 0x1_0000_0000) as u32)
}

/// The sixteen bytes of `x`, most significant first.
pub open spec fn be_u128(x: u128) -> Seq<u8> {
    be_u64((x / 0x1_0000_0000_0000_0000) as u64) + be_u64((x % 0x1_0000_0000_0000_0000) as u64)
}

/// The number that the first two bytes of `s` spell, most significant first.
pub open spec fn from_be_u16(s: Seq<u8>) -> u16
    recommends
        s.len() >= 2,
{
    (s[0] as int * 0x100 + s[1] as int) as u16
}

/// The number that the first four bytes of `s` spell, most significant first.
pub open spec fn from_be_u32(s: Seq<u8>) -> u32
    recommends
        s.len() >= 4,
{
    (from_be_u16(s) as int * 0x1_0000 + from_be_u16(s.subrange(2, 4)) as int) as u32
}

/// The number that the first eight bytes of `s` spell, most significant first.
pub open spec fn from_be_u64(s: Seq<u8>) -> u64
    recommends
        s.len() >= 8,
{
    (from_be_u32(s) as int * 0x1_0000_0000 + from_be_u32(s.subrange(4, 8)) as int) as u64
}

/// The number that the first sixteen bytes of `s` spell, most significant first.
pub open spec fn from_be_u128(s: Seq<u8>) -> u128
    recommends
        s.len() >= 16,
{
    let high = from_be_u64(s) as int;
    let low = from_be_u64(s.subrange(8, 16)) as int;
    (high * 0x1_0000_0000_0000_0000 + low) as u128
}

/// Reading back the bytes of a 16-bit number gives the number, whatever follows them.
pub proof fn lemma_be_u16_roundtrip(x: u16, rest: Seq<u8>)
    ensures
        be_u16(x).len() == 2,
        from_be_u16(be_u16(x) + rest) == x,
{
}

/// Reading back the bytes of a 32-bit number gives the number, whatever follows them.
pub proof fn lemma_be_u32_roundtrip(x: u32, rest: Seq<u8>)
    ensures
        be_u32(x).len() == 4,
        from_be_u32(be_u32(x) + rest) == x,
{
    let hi = (x / 0x1_0000) as u16;
    let lo = (x % 0x1_0000) as u16;
    let s = be_u32(x) + rest;
    lemma_be_u16_roundtrip(hi, be_u16(lo) + rest);
    lemma_be_u16_roundtrip(lo, Seq::<u8>::empty());
    assert(s =~= be_u16(hi) + (be_u16(lo) + rest));
    assert(s.subrange(2, 4) =~= be_u16(lo) + Seq::<u8>::empty());
}

/// Reading back the bytes of a 64-bit number gives the number, whatever follows them.
pub proof fn lemma_be_u64_roundtrip(x: u64, rest: Seq<u8>)
    ensures
        be_u64(x).len() == 8,
        from_be_u64(be_u64(x) + rest) == x,
{
    let hi = (x / 0x1_0000_0000) as u32;
    let lo = (x % 0x1_0000_0000) as u32;
    let s = be_u64(x) + rest;
    lemma_be_u32_roundtrip(hi, be_u32(lo) + rest);
    lemma_be_u32_roundtrip(lo, Seq::<u8>::empty());
    assert(s =~= be_u32(hi) + (be_u32(lo) + rest));
    assert(s.subrange(4, 8) =~= be_u32(lo) + Seq::<u8>::empty());
}

/// Reading back the bytes of a 128-bit number gives the number, whatever follows them.
pub proof fn lemma_be_u128_roundtrip(x: u128, rest: Seq<u8>)
    ensures
        be_u128(x).len() == 16,
        from_be_u128(be_u128(x) + rest) == x,
{
    let hi = (x / 0x1_0000_0000_0000_0000) as u64;
    let lo = (x % 0x1_0000_0000_0000_0000) as u64;
    let s = be_u128(x) + rest;
    lemma_be_u64_roundtrip(hi, be_u64(lo) + rest);
    lemma_be_u64_roundtrip(lo, Seq::<u8>::empty());
    assert(s =~= be_u64(hi) + (be_u64(lo) + rest));
    assert(s.subrange(8, 16) =~= be_u64(lo) + Seq::<u8>::empty());
}

/// Appends `s` to `v`.
pub fn append_bytes(v: &mut Vec<u8>, s: &[u8])
    ensures
        final(v)@ == old(v)@ + s@,
{
    let ghost before = v@;
    let mut i: usize = 0;
    while i < s.len()
        invariant
            i <= s@.len(),
            v@ == before + s@.subrange(0, i as int),
        decreases s@.len() - i,
    {
        v.push(s[i]);
        i = i + 1;
        assert(v@ =~= before + s@.subrange(0, i as int));
    }
    assert(s@.subrange(0, i as int) =~= s@);
}

/// An owned copy of `s`.
pub fn copy_bytes(s: &[u8]) -> (v: Vec<u8>)
    ensures
        v@ == s@,
{
    slice_to_vec(s)
}

/// An owned copy of the bytes of `s` from `from` up to `to`.
pub(crate) fn copy_range(s: &[u8], from: usize, to: usize) -> (v: Vec<u8>)
    requires
        from <= to <= s@.len(),
    ensures
        v@ == s@.subrange(from as int, to as int),
{
    slice_to_vec(slice_subrange(s, from, to))
}

/// Whether two byte strings hold the same bytes.
pub fn same_bytes(a: &[u8], b: &[u8]) -> (same: bool)
    ensures
        same == (a@ == b@),
{
    if a.len() != b.len() {
        return false;
    }
    let mut i: usize = 0;
    while i < a.len()
        invariant
            a@.len() == b@.len(),
            i <= a@.len(),
            forall|j: int| 0 <= j < i ==> a@[j] == b@[j],
        decreases a@.len() - i,
    {
        if a[i] != b[i] {
            return false;
        }
        i = i + 1;
    }
    assert(a@ =~= b@);
    true
}

/// Appends the two bytes of `x`, most significant first.
pub fn put_u16(v: &mut Vec<u8>, x: u16)
    ensures
        final(v)@ == old(v)@ + be_u16(x),
{
    let ghost before = v@;
    v.push((x / 0x100) as u8);
    v.push((x % 0x100) as u8);
    assert(v@ =~= before + be_u16(x));
}

/// Appends the four bytes of `x`, most significant first.
pub fn put_u32(v: &mut Vec<u8>, x: u32)
    ensures
        final(v)@ == old(v)@ + be_u32(x),
{
    let ghost before = v@;
    put_u16(v, (x / 0x1_0000) as u16);
    put_u16(v, (x % 0x1_0000) as u16);
    assert(v@ =~= before + be_u32(x));
}

/// Appends the eight bytes of `x`, most significant first.
pub fn put_u64(v: &mut Vec<u8>, x: u64)
    ensures
        final(v)@ == old(v)@ + be_u64(x),
{
    let ghost before = v@;
    put_u32(v, (x / 0x1_0000_0000) as u32);
    put_u32(v, (x % 0x1_0000_0000) as u32);
    assert(v@ =~= before + be_u64(x));
}

/// Appends the sixteen bytes of `x`, most significant first.
pub fn put_u128(v: &mut Vec<u8>, x: u128)
    ensures
        final(v)@ == old(v)@ + be_u128(x),
{
    let ghost before = v@;
    let hi = (x / 0x1_0000_0000_0000_0000) as u64;
    let lo = (x % 0x1_0000_0000_0000_0000) as u64;
    put_u64(v, hi);
    put_u64(v, lo);
    assert(v@ =~= before + be_u128(x));
}

/// Reads the 16-bit number at `pos`.
pub(crate) fn get_u16(s: &[u8], pos: usize) -> (x: u16)
    requires
        pos + 2 <= s@.len(),
    ensures
        x == from_be_u16(s@.subrange(pos as int, s@.len() as int)),
{
    let x = s[pos] as u16 * 0x100 + s[pos + 1] as u16;
    x
}

/// Reads the 32-bit number at `pos`.
pub(crate) fn get_u32(s: &[u8], pos: usize) -> (x: u32)
    requires
        pos + 4 <= s@.len(),
    ensures
        x == from_be_u32(s@.subrange(pos as int, s@.len() as int)),
{
    let n = s.len();
    let hi = get_u16(s, pos);
    let lo = get_u16(s, pos + 2);
    proof {
        let t = s@.subrange(pos as int, s@.len() as int);
        let u = t.subrange(2, 4);
        let w = s@.subrange(pos + 2, s@.len() as int);
        assert(u[0] == w[0] && u[1] == w[1]);
    }
    let x = hi as u32 * 0x1_0000 + lo as u32;
    x
}

/// Reads the 64-bit number at `pos`.
pub(crate) fn get_u64(s: &[u8], pos: usize) -> (x: u64)
    requires
        pos + 8 <= s@.len(),
    ensures
        x == from_be_u64(s@.subrange(pos as int, s@.len() as int)),
{
    let n = s.len();
    let hi = get_u32(s, pos);
    let lo = get_u32(s, pos + 4);
    proof {
        let t = s@.subrange(pos as int, s@.len() as int);
        let u = t.subrange(4, 8);
        let w = s@.subrange(pos + 4, s@.len() as int);
        assert(u.subrange(2, 4) =~= w.subrange(2, 4));
        assert(u[0] == w[0] && u[1] == w[1]);
    }
    let x = hi as u64 * 0x1_0000_0000 + lo as u64;
    x
}

/// Reads the 128-bit number at `pos`.
pub(crate) fn get_u128(s: &[u8], pos: usize) -> (x: u128)
    requires
        pos + 16 <= s@.len(),
    ensures
        x == from_be_u128(s@.subrange(pos as int, s@.len() as int)),
{
    let n = s.len();
    let hi = get_u64(s, pos);
    let lo = get_u64(s, pos + 8);
    proof {
        let t = s@.subrange(pos as int, s@.len() as int);
        let u = t.subrange(8, 16);
        let w = s@.subrange(pos + 8, s@.len() as int);
        assert(u.subrange(0, 8) =~= w.subrange(0, 8));
        lemma_from_be_u64_prefix(u, w);
    }
    let x = hi as u128 * 0x1_0000_0000_0000_0000 + lo as u128;
    x
}

/// The number that eight bytes spell depends on those eight bytes alone.
pub proof fn lemma_from_be_u64_prefix(a: Seq<u8>, b: Seq<u8>)
    requires
        a.len() >= 8,
        b.len() >= 8,
        a.subrange(0, 8) == b.subrange(0, 8),
    ensures
        from_be_u64(a) == from_be_u64(b),
{
    assert(forall|i: int| 0 <= i < 8 ==> a[i] == a.subrange(0, 8)[i]);
    assert(forall|i: int| 0 <= i < 8 ==> b[i] == b.subrange(0, 8)[i]);
    assert(a.subrange(4, 8).subrange(2, 4) =~= b.subrange(4, 8).subrange(2, 4));
    assert(a.subrange(2, 4) =~= b.subrange(2, 4));
    assert(a.subrange(4, 8)[0] == b.subrange(4, 8)[0]);
    assert(a.subrange(4, 8)[1] == b.subrange(4, 8)[1]);
}

/// The lower-case hexadecimal digit of a number below sixteen.
pub open spec fn hex_digit(n: int) -> char
    recommends
        0 <= n < 16,
{
    "0123456789abcdef"@[n]
}

/// The lower-case hexadecimal text of a byte string: two digits a byte,
/// the high half first.
pub open spec fn hex_text(data: Seq<u8>) -> Seq<char> {
    Seq::new(
        2 * data.len(),
        |i: int|
            if i % 2 == 0 {
                hex_digit(data[i / 2] as int / 16)
            } else {
                hex_digit(data[i / 2] as int % 16)
            },
    )
}

/// The lower-case hexadecimal digit of a number below sixteen.
fn hex_char(n: u8) -> (c: char)
    requires
        n < 16,
    ensures
        c == hex_digit(n as int),
{
    proof {
        reveal_strlit("0123456789abcdef");
    }
    if n < 10 {
        (48u8 + n) as char
    } else {
        (87u8 + n) as char
    }
}

/// The lower-case hexadecimal text of a byte string.
pub fn hex_encode(data: &[u8]) -> (text: String)
    ensures
        text@ == hex_text(data@),
{
    let mut text = String::new();
    let n = data.len();
    let mut i: usize = 0;
    while i < n
        invariant
            n == data@.len(),
            i <= n,
            text@.len() == 2 * i,
            forall|j: int| 0 <= j < 2 * i ==> text@[j] == #[trigger] hex_text(data@)[j],
        decreases n - i,
    {
        let byte = data[i];
        let ghost before = text@;
        text.push(hex_char(byte / 16));
        text.push(hex_char(byte % 16));
        proof {
            assert(text@ == before.push(hex_digit(byte as int / 16)).push(
                hex_digit(byte as int % 16),
            ));
            assert(hex_text(data@)[2 * i] == hex_digit(data@[i as int] as int / 16));
            assert(hex_text(data@)[2 * i + 1] == hex_digit(data@[i as int] as int % 16));
        }
        i = i + 1;
    }
    assert(text@ =~= hex_text(data@));
    text
}

} // verus!
