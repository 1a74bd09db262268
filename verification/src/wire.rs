//! The elements of the node's wire formats: big-endian numbers, byte
//! strings and texts with their length before them, and optional byte
//! strings. Each element has an encoding, and a parser that reads one
//! element from the front of a byte string and hands back the rest.

use vstd::prelude::*;
use vstd::utf8::decode_utf8;
use vstd::utf8::encode_utf8;
use vstd::utf8::valid_utf8;

use crate::bytes::append_bytes;
use crate::bytes::be_u128;
use crate::bytes::be_u16;
use crate::bytes::be_u64;
use crate::bytes::copy_range;
use crate::bytes::from_be_u128;
use crate::bytes::from_be_u16;
use crate::bytes::from_be_u64;
use crate::bytes::get_u128;
use crate::bytes::get_u16;
use crate::bytes::get_u64;
use crate::bytes::lemma_be_u128_roundtrip;
use crate::bytes::lemma_be_u16_roundtrip;
use crate::bytes::lemma_be_u64_roundtrip;
use crate::bytes::put_u64;
use crate::crypto::string_from_utf8;

verus! {

/// The byte at the front of `s`, and the rest.
pub open spec fn parse_u8(s: Seq<u8>) -> Option<(u8, Seq<u8>)> {
    if s.len() >= 1 {
        Some((s[0], s.subrange(1, s.len() as int)))
    } else {
        None
    }
}

/// The 16-bit number at the front of `s`, and the rest.
pub open spec fn parse_u16(s: Seq<u8>) -> Option<(u16, Seq<u8>)> {
    if s.len() >= 2 {
        Some((from_be_u16(s), s.subrange(2, s.len() as int)))
    } else {
        None
    }
}

/// The 64-bit number at the front of `s`, and the rest.
pub open spec fn parse_u64(s: Seq<u8>) -> Option<(u64, Seq<u8>)> {
    if s.len() >= 8 {
        Some((from_be_u64(s), s.subrange(8, s.len() as int)))
    } else {
        None
    }
}

/// The 128-bit number at the front of `s`, and the rest.
pub open spec fn parse_u128(s: Seq<u8>) -> Option<(u128, Seq<u8>)> {
    if s.len() >= 16 {
        Some((from_be_u128(s), s.subrange(16, s.len() as int)))
    } else {
        None
    }
}

/// The first `n` bytes of `s`, and the rest.
pub open spec fn parse_fixed(s: Seq<u8>, n: int) -> Option<(Seq<u8>, Seq<u8>)> {
    if 0 <= n <= s.len() {
        Some((s.subrange(0, n), s.subrange(n, s.len() as int)))
    } else {
        None
    }
}

/// The byte string at the front of `s`, which stands after its length, and the rest.
pub open spec fn parse_bytes(s: Seq<u8>) -> Option<(Seq<u8>, Seq<u8>)> {
    match parse_u64(s) {
        Some((n, rest)) => parse_fixed(rest, n as int),
        None => None,
    }
}

/// The text at the front of `s`, as UTF-8 after its length in bytes, and the rest.
pub open spec fn parse_text(s: Seq<u8>) -> Option<(Seq<char>, Seq<u8>)> {
    match parse_bytes(s) {
        Some((bytes, rest)) => if valid_utf8(bytes) {
            Some((decode_utf8(bytes), rest))
        } else {
            None
        },
        None => None,
    }
}

/// The optional byte string at the front of `s`, and the rest: a zero
/// byte for nothing, or a one byte and then the byte string.
pub open spec fn parse_opt_bytes(s: Seq<u8>) -> Option<(Option<Seq<u8>>, Seq<u8>)> {
    match parse_u8(s) {
        Some((flag, rest)) => if flag == 0 {
            Some((None, rest))
        } else if flag == 1 {
            match parse_bytes(rest) {
                Some((bytes, after)) => Some((Some(bytes), after)),
                None => None,
            }
        } else {
            None
        },
        None => None,
    }
}

/// A byte string after its length.
pub open spec fn enc_bytes(b: Seq<u8>) -> Seq<u8> {
    be_u64(b.len() as u64) + b
}

/// A text as UTF-8 after its length in bytes.
pub open spec fn enc_text(t: Seq<char>) -> Seq<u8> {
    enc_bytes(encode_utf8(t))
}

/// An optional byte string: a zero byte for nothing, or a one byte and
/// then the byte string.
pub open spec fn enc_opt_bytes(o: Option<Seq<u8>>) -> Seq<u8> {
    match o {
        None => seq![0u8],
        Some(b) => seq![1u8] + enc_bytes(b),
    }
}

/// Parsing a byte and what follows it gives both back.
pub proof fn lemma_parse_u8(x: u8, rest: Seq<u8>)
    ensures
        parse_u8(seq![x] + rest) == Some((x, rest)),
{
    let s = seq![x] + rest;
    assert(s.subrange(1, s.len() as int) =~= rest);
}

/// Parsing an encoded 16-bit number and what follows it gives both back.
pub proof fn lemma_parse_u16(x: u16, rest: Seq<u8>)
    ensures
        parse_u16(be_u16(x) + rest) == Some((x, rest)),
{
    lemma_be_u16_roundtrip(x, rest);
    let s = be_u16(x) + rest;
    assert(s.subrange(2, s.len() as int) =~= rest);
}

/// Parsing an encoded 64-bit number and what follows it gives both back.
pub proof fn lemma_parse_u64(x: u64, rest: Seq<u8>)
    ensures
        parse_u64(be_u64(x) + rest) == Some((x, rest)),
{
    lemma_be_u64_roundtrip(x, rest);
    let s = be_u64(x) + rest;
    assert(s.subrange(8, s.len() as int) =~= rest);
}

/// Parsing an encoded 128-bit number and what follows it gives both back.
pub proof fn lemma_parse_u128(x: u128, rest: Seq<u8>)
    ensures
        parse_u128(be_u128(x) + rest) == Some((x, rest)),
{
    lemma_be_u128_roundtrip(x, rest);
    let s = be_u128(x) + rest;
    assert(s.subrange(16, s.len() as int) =~= rest);
}

/// Parsing a run of bytes of known length and what follows it gives both back.
pub proof fn lemma_parse_fixed(b: Seq<u8>, rest: Seq<u8>)
    ensures
        parse_fixed(b + rest, b.len() as int) == Some((b, rest)),
{
    let s = b + rest;
    assert(s.subrange(0, b.len() as int) =~= b);
    assert(s.subrange(b.len() as int, s.len() as int) =~= rest);
}

/// Parsing an encoded byte string and what follows it gives both back.
pub proof fn lemma_parse_bytes(b: Seq<u8>, rest: Seq<u8>)
    requires
        b.len() <= u64::MAX,
    ensures
        parse_bytes(enc_bytes(b) + rest) == Some((b, rest)),
{
    let s = enc_bytes(b) + rest;
    assert(s =~= be_u64(b.len() as u64) + (b + rest));
    lemma_parse_u64(b.len() as u64, b + rest);
    lemma_parse_fixed(b, rest);
}

/// Parsing an encoded text and what follows it gives both back.
pub proof fn lemma_parse_text(t: Seq<char>, rest: Seq<u8>)
    requires
        encode_utf8(t).len() <= u64::MAX,
    ensures
        parse_text(enc_text(t) + rest) == Some((t, rest)),
{
    lemma_parse_bytes(encode_utf8(t), rest);
    vstd::utf8::encode_utf8_valid_utf8(t);
    vstd::utf8::encode_utf8_decode_utf8(t);
}

/// Parsing an encoded optional byte string and what follows it gives both back.
pub proof fn lemma_parse_opt_bytes(o: Option<Seq<u8>>, rest: Seq<u8>)
    requires
        o.is_some() ==> o.unwrap().len() <= u64::MAX,
    ensures
        parse_opt_bytes(enc_opt_bytes(o) + rest) == Some((o, rest)),
{
    match o {
        None => {
            lemma_parse_u8(0u8, rest);
        },
        Some(b) => {
            let s = enc_opt_bytes(o) + rest;
            assert(s =~= seq![1u8] + (enc_bytes(b) + rest));
            lemma_parse_u8(1u8, enc_bytes(b) + rest);
            lemma_parse_bytes(b, rest);
        },
    }
}

/// Appends a byte string after its length.
pub fn put_bytes(out: &mut Vec<u8>, b: &[u8])
    ensures
        final(out)@ == old(out)@ + enc_bytes(b@),
        b@.len() <= u64::MAX,
{
    let ghost before = out@;
    let n = b.len();
    put_u64(out, n as u64);
    append_bytes(out, b);
    assert(out@ =~= before + enc_bytes(b@));
}

/// Appends a text as UTF-8 after its length in bytes.
pub fn put_text(out: &mut Vec<u8>, t: &str)
    ensures
        final(out)@ == old(out)@ + enc_text(t@),
        encode_utf8(t@).len() <= u64::MAX,
{
    put_bytes(out, t.as_bytes());
}

/// Appends an optional byte string.
pub fn put_opt_bytes(out: &mut Vec<u8>, o: &Option<Vec<u8>>)
    ensures
        final(out)@ == old(out)@ + enc_opt_bytes(opt_view(*o)),
        o.is_some() ==> o.unwrap()@.len() <= u64::MAX,
{
    let ghost before = out@;
    match o {
        None => {
            out.push(0u8);
            assert(out@ =~= before + seq![0u8]);
        },
        Some(b) => {
            out.push(1u8);
            put_bytes(out, b.as_slice());
            assert(out@ =~= before + (seq![1u8] + enc_bytes(b@)));
        },
    }
}

/// The bytes of an optional byte string.
pub open spec fn opt_view(o: Option<Vec<u8>>) -> Option<Seq<u8>> {
    match o {
        Some(b) => Some(b@),
        None => None,
    }
}

/// A place in a byte string from which elements are read one after another.
pub struct Reader<'a> {
    buf: &'a [u8],
    pos: usize,
}

impl<'a> Reader<'a> {
    /// What is still to be read.
    pub closed spec fn rest(&self) -> Seq<u8> {
        self.buf@.subrange(self.pos as int, self.buf@.len() as int)
    }

    /// What holds of every reader: its place lies within the byte string.
    pub closed spec fn wf(&self) -> bool {
        self.pos <= self.buf@.len()
    }

    /// A reader at the front of `buf`.
    pub fn new(buf: &'a [u8]) -> (r: Reader<'a>)
        ensures
            r.wf(),
            r.rest() == buf@,
    {
        assert(buf@.subrange(0, buf@.len() as int) =~= buf@);
        Reader { buf, pos: 0 }
    }

    /// Whether everything has been read.
    pub fn at_end(&self) -> (end: bool)
        requires
            self.wf(),
        ensures
            end == (self.rest().len() == 0),
    {
        self.pos == self.buf.len()
    }

    /// Reads a byte.
    pub fn u8(&mut self) -> (r: Option<u8>)
        requires
            old(self).wf(),
        ensures
            final(self).wf(),
            r.is_some() == parse_u8(old(self).rest()).is_some(),
            r.is_some() ==> parse_u8(old(self).rest()) == Some((r.unwrap(), final(self).rest())),
    {
        if self.buf.len() - self.pos < 1 {
            return None;
        }
        let x = self.buf[self.pos];
        self.pos = self.pos + 1;
        proof {
            assert(self.rest() =~= old(self).rest().subrange(1, old(self).rest().len() as int));
        }
        Some(x)
    }

    /// Reads a 16-bit number.
    pub fn u16(&mut self) -> (r: Option<u16>)
        requires
            old(self).wf(),
        ensures
            final(self).wf(),
            r.is_some() == parse_u16(old(self).rest()).is_some(),
            r.is_some() ==> parse_u16(old(self).rest()) == Some((r.unwrap(), final(self).rest())),
    {
        if self.buf.len() - self.pos < 2 {
            return None;
        }
        let x = get_u16(self.buf, self.pos);
        self.pos = self.pos + 2;
        proof {
            assert(self.rest() =~= old(self).rest().subrange(2, old(self).rest().len() as int));
        }
        Some(x)
    }

    /// Reads a 64-bit number.
    pub fn u64(&mut self) -> (r: Option<u64>)
        requires
            old(self).wf(),
        ensures
            final(self).wf(),
            r.is_some() == parse_u64(old(self).rest()).is_some(),
            r.is_some() ==> parse_u64(old(self).rest()) == Some((r.unwrap(), final(self).rest())),
    {
        if self.buf.len() - self.pos < 8 {
            return None;
        }
        let x = get_u64(self.buf, self.pos);
        self.pos = self.pos + 8;
        proof {
            assert(self.rest() =~= old(self).rest().subrange(8, old(self).rest().len() as int));
        }
        Some(x)
    }

    /// Reads a 128-bit number.
    pub fn u128(&mut self) -> (r: Option<u128>)
        requires
            old(self).wf(),
        ensures
            final(self).wf(),
            r.is_some() == parse_u128(old(self).rest()).is_some(),
            r.is_some() ==> parse_u128(old(self).rest()) == Some((r.unwrap(), final(self).rest())),
    {
        if self.buf.len() - self.pos < 16 {
            return None;
        }
        let x = get_u128(self.buf, self.pos);
        self.pos = self.pos + 16;
        proof {
            assert(self.rest() =~= old(self).rest().subrange(16, old(self).rest().len() as int));
        }
        Some(x)
    }

    /// Reads `n` bytes.
    pub fn fixed(&mut self, n: usize) -> (r: Option<Vec<u8>>)
        requires
            old(self).wf(),
        ensures
            final(self).wf(),
            r.is_some() == parse_fixed(old(self).rest(), n as int).is_some(),
            r.is_some() ==> parse_fixed(old(self).rest(), n as int) == Some(
                (r.unwrap()@, final(self).rest()),
            ),
    {
        if self.buf.len() - self.pos < n {
            return None;
        }
        let b = copy_range(self.buf, self.pos, self.pos + n);
        self.pos = self.pos + n;
        proof {
            assert(b@ =~= old(self).rest().subrange(0, n as int));
            assert(self.rest() =~= old(self).rest().subrange(
                n as int,
                old(self).rest().len() as int,
            ));
        }
        Some(b)
    }

    /// Reads 32 bytes.
    pub fn array32(&mut self) -> (r: Option<[u8; 32]>)
        requires
            old(self).wf(),
        ensures
            final(self).wf(),
            r.is_some() == parse_fixed(old(self).rest(), 32).is_some(),
            r.is_some() ==> parse_fixed(old(self).rest(), 32) == Some(
                (r.unwrap()@, final(self).rest()),
            ),
    {
        if self.buf.len() - self.pos < 32 {
            return None;
        }
        let mut a = [0u8; 32];
        let start = self.pos;
        let total = self.buf.len();
        let mut i: usize = 0;
        while i < 32
            invariant
                i <= 32,
                start + 32 <= self.buf@.len() == total,
                forall|j: int| 0 <= j < i ==> a@[j] == self.buf@[start + j],
            decreases 32 - i,
        {
            a[i] = self.buf[start + i];
            i = i + 1;
        }
        self.pos = self.pos + 32;
        proof {
            assert(a@ =~= old(self).rest().subrange(0, 32));
            assert(self.rest() =~= old(self).rest().subrange(32, old(self).rest().len() as int));
        }
        Some(a)
    }

    /// Reads a byte string that stands after its length.
    pub fn bytes(&mut self) -> (r: Option<Vec<u8>>)
        requires
            old(self).wf(),
        ensures
            final(self).wf(),
            r.is_some() == parse_bytes(old(self).rest()).is_some(),
            r.is_some() ==> parse_bytes(old(self).rest()) == Some(
                (r.unwrap()@, final(self).rest()),
            ),
    {
        match self.u64() {
            None => None,
            Some(n) => {
                if n > (self.buf.len() - self.pos) as u64 {
                    return None;
                }
                self.fixed(n as usize)
            },
        }
    }

    /// Reads a text that stands as UTF-8 after its length in bytes.
    pub fn text(&mut self) -> (r: Option<String>)
        requires
            old(self).wf(),
        ensures
            final(self).wf(),
            r.is_some() == parse_text(old(self).rest()).is_some(),
            r.is_some() ==> parse_text(old(self).rest()) == Some((r.unwrap()@, final(self).rest())),
    {
        match self.bytes() {
            None => None,
            Some(b) => string_from_utf8(b),
        }
    }

    /// Reads an optional byte string.
    pub fn opt_bytes(&mut self) -> (r: Option<Option<Vec<u8>>>)
        requires
            old(self).wf(),
        ensures
            final(self).wf(),
            r.is_some() == parse_opt_bytes(old(self).rest()).is_some(),
            r.is_some() ==> parse_opt_bytes(old(self).rest()) == Some(
                (opt_view(r.unwrap()), final(self).rest()),
            ),
    {
        match self.u8() {
            None => None,
            Some(flag) => {
                if flag == 0 {
                    Some(None)
                } else if flag == 1 {
                    match self.bytes() {
                        None => None,
                        Some(b) => Some(Some(b)),
                    }
                } else {
                    None
                }
            },
        }
    }
}

} // verus!
