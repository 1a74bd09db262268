//! The elements of MessagePack that the control socket speaks: numbers,
//! texts, byte strings, nothing, truth values, and the headers of arrays
//! and maps. Each element is written in its shortest form and read in
//! any form.

use vstd::prelude::*;
use vstd::utf8::decode_utf8;
use vstd::utf8::encode_utf8;
use vstd::utf8::valid_utf8;

use crate::bytes::append_bytes;
use crate::bytes::be_u16;
use crate::bytes::be_u32;
use crate::bytes::be_u64;
use crate::bytes::copy_range;
use crate::bytes::from_be_u16;
use crate::bytes::from_be_u32;
use crate::bytes::from_be_u64;
use crate::bytes::get_u16;
use crate::bytes::get_u32;
use crate::bytes::get_u64;
use crate::bytes::lemma_be_u16_roundtrip;
use crate::bytes::lemma_be_u32_roundtrip;
use crate::bytes::lemma_be_u64_roundtrip;
use crate::bytes::put_u16;
use crate::bytes::put_u32;
use crate::bytes::put_u64;
use crate::bytes::same_bytes;
use crate::crypto::string_from_utf8;

verus! {

/// The kinds of element that start with a length.
#[derive(Debug, Clone, Copy, PartialEq, Eq, Structural)]
pub enum Sized {
    /// A text, as UTF-8.
    Text,
    /// A byte string.
    Binary,
    /// An array of elements.
    Array,
    /// A map of keys and values.
    Table,
}

/// The first byte of a short element of this kind, to which its length
/// is added; byte strings have no short form.
pub open spec fn short_base(kind: Sized) -> int {
    match kind {
        Sized::Text => 0xa0,
        Sized::Binary => 0,
        Sized::Array => 0x90,
        Sized::Table => 0x80,
    }
}

/// The lengths below this have a short form.
pub open spec fn short_limit(kind: Sized) -> int {
    match kind {
        Sized::Text => 32,
        Sized::Binary => 0,
        Sized::Array => 16,
        Sized::Table => 16,
    }
}

/// The first byte of an element whose length takes one byte; arrays and
/// maps have no such form.
pub open spec fn code8(kind: Sized) -> Option<u8> {
    match kind {
        Sized::Text => Some(0xd9u8),
        Sized::Binary => Some(0xc4u8),
        Sized::Array => None,
        Sized::Table => None,
    }
}

/// The first byte of an element whose length takes two bytes.
pub open spec fn code16(kind: Sized) -> u8 {
    match kind {
        Sized::Text => 0xda,
        Sized::Binary => 0xc5,
        Sized::Array => 0xdc,
        Sized::Table => 0xde,
    }
}

/// The first byte of an element whose length takes four bytes.
pub open spec fn code32(kind: Sized) -> u8 {
    match kind {
        Sized::Text => 0xdb,
        Sized::Binary => 0xc6,
        Sized::Array => 0xdd,
        Sized::Table => 0xdf,
    }
}

/// The header of an element of this kind and length, in its shortest form.
pub open spec fn enc_len(kind: Sized, n: u32) -> Seq<u8> {
    if n < short_limit(kind) {
        seq![(short_base(kind) + n) as u8]
    } else if n <= 0xff && code8(kind).is_some() {
        seq![code8(kind).unwrap(), n as u8]
    } else if n <= 0xffff {
        seq![code16(kind)] + be_u16(n as u16)
    } else {
        seq![code32(kind)] + be_u32(n)
    }
}

/// The length that the header of an element of this kind at the front of
/// `s` gives, and the rest.
pub open spec fn parse_len(kind: Sized, s: Seq<u8>) -> Option<(u32, Seq<u8>)> {
    if s.len() == 0 {
        None
    } else if short_base(kind) <= s[0] < short_base(kind) + short_limit(kind) {
        Some(((s[0] - short_base(kind)) as u32, s.skip(1)))
    } else if code8(kind) == Some(s[0]) {
        if s.len() >= 2 {
            Some((s[1] as u32, s.skip(2)))
        } else {
            None
        }
    } else if s[0] == code16(kind) {
        if s.len() >= 3 {
            Some((from_be_u16(s.skip(1)) as u32, s.skip(3)))
        } else {
            None
        }
    } else if s[0] == code32(kind) {
        if s.len() >= 5 {
            Some((from_be_u32(s.skip(1)), s.skip(5)))
        } else {
            None
        }
    } else {
        None
    }
}

/// A number, in its shortest form.
pub open spec fn enc_uint(x: u64) -> Seq<u8> {
    if x < 0x80 {
        seq![x as u8]
    } else if x <= 0xff {
        seq![0xccu8, x as u8]
    } else if x <= 0xffff {
        seq![0xcdu8] + be_u16(x as u16)
    } else if x <= 0xffff_ffff {
        seq![0xceu8] + be_u32(x as u32)
    } else {
        seq![0xcfu8] + be_u64(x)
    }
}

/// The number at the front of `s`, and the rest.
pub open spec fn parse_uint(s: Seq<u8>) -> Option<(u64, Seq<u8>)> {
    if s.len() == 0 {
        None
    } else if s[0] < 0x80 {
        Some((s[0] as u64, s.skip(1)))
    } else if s[0] == 0xcc {
        if s.len() >= 2 {
            Some((s[1] as u64, s.skip(2)))
        } else {
            None
        }
    } else if s[0] == 0xcd {
        if s.len() >= 3 {
            Some((from_be_u16(s.skip(1)) as u64, s.skip(3)))
        } else {
            None
        }
    } else if s[0] == 0xce {
        if s.len() >= 5 {
            Some((from_be_u32(s.skip(1)) as u64, s.skip(5)))
        } else {
            None
        }
    } else if s[0] == 0xcf {
        if s.len() >= 9 {
            Some((from_be_u64(s.skip(1)), s.skip(9)))
        } else {
            None
        }
    } else {
        None
    }
}

/// A truth value.
pub open spec fn enc_bool(b: bool) -> Seq<u8> {
    if b {
        seq![0xc3u8]
    } else {
        seq![0xc2u8]
    }
}

/// The truth value at the front of `s`, and the rest.
pub open spec fn parse_bool(s: Seq<u8>) -> Option<(bool, Seq<u8>)> {
    if s.len() >= 1 && s[0] == 0xc3 {
        Some((true, s.skip(1)))
    } else if s.len() >= 1 && s[0] == 0xc2 {
        Some((false, s.skip(1)))
    } else {
        None
    }
}

/// Whether a byte string is short enough to be written.
pub open spec fn fits(len: nat) -> bool {
    len <= u32::MAX
}

/// A byte string.
pub open spec fn enc_bin(b: Seq<u8>) -> Seq<u8> {
    enc_len(Sized::Binary, b.len() as u32) + b
}

/// The byte string at the front of `s`, and the rest.
pub open spec fn parse_bin(s: Seq<u8>) -> Option<(Seq<u8>, Seq<u8>)> {
    match parse_len(Sized::Binary, s) {
        Some((n, rest)) => if n <= rest.len() {
            Some((rest.take(n as int), rest.skip(n as int)))
        } else {
            None
        },
        None => None,
    }
}

/// A text.
pub open spec fn enc_str(t: Seq<char>) -> Seq<u8> {
    enc_len(Sized::Text, encode_utf8(t).len() as u32) + encode_utf8(t)
}

/// The text at the front of `s`, and the rest.
pub open spec fn parse_str(s: Seq<u8>) -> Option<(Seq<char>, Seq<u8>)> {
    match parse_len(Sized::Text, s) {
        Some((n, rest)) => if n <= rest.len() && valid_utf8(rest.take(n as int)) {
            Some((decode_utf8(rest.take(n as int)), rest.skip(n as int)))
        } else {
            None
        },
        None => None,
    }
}

/// What follows the text `key` at the front of `s`, if that text stands there.
pub open spec fn parse_key(s: Seq<u8>, key: Seq<char>) -> Option<Seq<u8>> {
    match parse_str(s) {
        Some((t, rest)) => if t == key {
            Some(rest)
        } else {
            None
        },
        None => None,
    }
}

/// Whether nothing stands at the front of `s`.
pub open spec fn starts_nil(s: Seq<u8>) -> bool {
    s.len() >= 1 && s[0] == 0xc0
}

/// An optional number: nothing, or the number.
pub open spec fn enc_opt_uint(o: Option<u64>) -> Seq<u8> {
    match o {
        None => seq![0xc0u8],
        Some(x) => enc_uint(x),
    }
}

/// The optional number at the front of `s`, and the rest.
pub open spec fn parse_opt_uint(s: Seq<u8>) -> Option<(Option<u64>, Seq<u8>)> {
    if starts_nil(s) {
        Some((None, s.skip(1)))
    } else {
        match parse_uint(s) {
            Some((x, rest)) => Some((Some(x), rest)),
            None => None,
        }
    }
}

/// An optional text: nothing, or the text.
pub open spec fn enc_opt_str(o: Option<Seq<char>>) -> Seq<u8> {
    match o {
        None => seq![0xc0u8],
        Some(t) => enc_str(t),
    }
}

/// The optional text at the front of `s`, and the rest.
pub open spec fn parse_opt_str(s: Seq<u8>) -> Option<(Option<Seq<char>>, Seq<u8>)> {
    if starts_nil(s) {
        Some((None, s.skip(1)))
    } else {
        match parse_str(s) {
            Some((t, rest)) => Some((Some(t), rest)),
            None => None,
        }
    }
}

/// The header of a length, read back, gives the length and what follows.
#[verifier::rlimit(40)]
pub proof fn lemma_parse_len(kind: Sized, n: u32, rest: Seq<u8>)
    ensures
        parse_len(kind, enc_len(kind, n) + rest) == Some((n, rest)),
        !starts_nil(enc_len(kind, n) + rest),
{
    let s = enc_len(kind, n) + rest;
    if n < short_limit(kind) {
        assert(s.skip(1) =~= rest);
        assert(s[0] == (short_base(kind) + n) as u8);
    } else if n <= 0xff && code8(kind).is_some() {
        assert(s.skip(2) =~= rest);
        assert(s[0] == code8(kind).unwrap());
        assert(s[1] == n as u8);
    } else if n <= 0xffff {
        assert(s[0] == code16(kind));
        assert(s.skip(1) =~= be_u16(n as u16) + rest);
        lemma_be_u16_roundtrip(n as u16, rest);
        assert(s.skip(3) =~= rest);
    } else {
        assert(s[0] == code32(kind));
        assert(s.skip(1) =~= be_u32(n) + rest);
        lemma_be_u32_roundtrip(n, rest);
        assert(s.skip(5) =~= rest);
    }
}

/// A number, read back, is the number, with what follows it.
#[verifier::rlimit(40)]
pub proof fn lemma_parse_uint(x: u64, rest: Seq<u8>)
    ensures
        parse_uint(enc_uint(x) + rest) == Some((x, rest)),
        !starts_nil(enc_uint(x) + rest),
{
    let s = enc_uint(x) + rest;
    if x < 0x80 {
        assert(s.skip(1) =~= rest);
        assert(s[0] == x as u8);
    } else if x <= 0xff {
        assert(s.skip(2) =~= rest);
        assert(s[0] == 0xcc && s[1] == x as u8);
    } else if x <= 0xffff {
        assert(s[0] == 0xcd);
        assert(s.skip(1) =~= be_u16(x as u16) + rest);
        lemma_be_u16_roundtrip(x as u16, rest);
        assert(s.skip(3) =~= rest);
    } else if x <= 0xffff_ffff {
        assert(s[0] == 0xce);
        assert(s.skip(1) =~= be_u32(x as u32) + rest);
        lemma_be_u32_roundtrip(x as u32, rest);
        assert(s.skip(5) =~= rest);
    } else {
        assert(s[0] == 0xcf);
        assert(s.skip(1) =~= be_u64(x) + rest);
        lemma_be_u64_roundtrip(x, rest);
        assert(s.skip(9) =~= rest);
    }
}

/// A truth value, read back, is the truth value, with what follows it.
pub proof fn lemma_parse_bool(b: bool, rest: Seq<u8>)
    ensures
        parse_bool(enc_bool(b) + rest) == Some((b, rest)),
{
    let s = enc_bool(b) + rest;
    assert(s.skip(1) =~= rest);
    assert(s[0] == enc_bool(b)[0]);
}

/// A byte string, read back, is the byte string, with what follows it.
pub proof fn lemma_parse_bin(b: Seq<u8>, rest: Seq<u8>)
    requires
        fits(b.len()),
    ensures
        parse_bin(enc_bin(b) + rest) == Some((b, rest)),
{
    let s = enc_bin(b) + rest;
    assert(s =~= enc_len(Sized::Binary, b.len() as u32) + (b + rest));
    lemma_parse_len(Sized::Binary, b.len() as u32, b + rest);
    assert((b + rest).take(b.len() as int) =~= b);
    assert((b + rest).skip(b.len() as int) =~= rest);
}

/// A text, read back, is the text, with what follows it.
pub proof fn lemma_parse_str(t: Seq<char>, rest: Seq<u8>)
    requires
        fits(encode_utf8(t).len()),
    ensures
        parse_str(enc_str(t) + rest) == Some((t, rest)),
        parse_key(enc_str(t) + rest, t) == Some(rest),
        !starts_nil(enc_str(t) + rest),
{
    let b = encode_utf8(t);
    let s = enc_str(t) + rest;
    assert(s =~= enc_len(Sized::Text, b.len() as u32) + (b + rest));
    lemma_parse_len(Sized::Text, b.len() as u32, b + rest);
    assert((b + rest).take(b.len() as int) =~= b);
    assert((b + rest).skip(b.len() as int) =~= rest);
    vstd::utf8::encode_utf8_valid_utf8(t);
    vstd::utf8::encode_utf8_decode_utf8(t);
}

/// An optional number, read back, is the same, with what follows it.
pub proof fn lemma_parse_opt_uint(o: Option<u64>, rest: Seq<u8>)
    ensures
        parse_opt_uint(enc_opt_uint(o) + rest) == Some((o, rest)),
{
    match o {
        None => {
            let s = enc_opt_uint(o) + rest;
            assert(s[0] == 0xc0);
            assert(s.skip(1) =~= rest);
        },
        Some(x) => {
            lemma_parse_uint(x, rest);
        },
    }
}

/// An optional text, read back, is the same, with what follows it.
pub proof fn lemma_parse_opt_str(o: Option<Seq<char>>, rest: Seq<u8>)
    requires
        o.is_some() ==> fits(encode_utf8(o.unwrap()).len()),
    ensures
        parse_opt_str(enc_opt_str(o) + rest) == Some((o, rest)),
{
    match o {
        None => {
            let s = enc_opt_str(o) + rest;
            assert(s[0] == 0xc0);
            assert(s.skip(1) =~= rest);
        },
        Some(t) => {
            lemma_parse_str(t, rest);
        },
    }
}

/// Two texts with the same UTF-8 bytes are the same text.
pub proof fn lemma_same_bytes_same_text(a: Seq<char>, b: Seq<char>)
    requires
        encode_utf8(a) == encode_utf8(b),
    ensures
        a == b,
{
    vstd::utf8::encode_utf8_decode_utf8(a);
    vstd::utf8::encode_utf8_decode_utf8(b);
}

/// Whether two texts are the same.
pub fn same_text(a: &str, b: &str) -> (same: bool)
    ensures
        same == (a@ == b@),
{
    proof {
        if encode_utf8(a@) == encode_utf8(b@) {
            lemma_same_bytes_same_text(a@, b@);
        }
    }
    same_bytes(a.as_bytes(), b.as_bytes())
}

/// The bytes that are being written, and whether everything so far was
/// short enough to be written.
pub struct Packer {
    pub out: Vec<u8>,
    pub ok: bool,
}

impl Packer {
    /// A packer that has written nothing.
    pub fn new() -> (p: Packer)
        ensures
            p.ok,
            p.out@ == Seq::<u8>::empty(),
    {
        Packer { out: Vec::new(), ok: true }
    }

    /// Writes the header of an element of this kind and length.
    pub fn len(&mut self, kind: Sized, n: usize)
        ensures
            final(self).ok == (old(self).ok && fits(n as nat)),
            final(self).ok ==> final(self).out@ == old(self).out@ + enc_len(kind, n as u32),
    {
        if n > u32::MAX as usize {
            self.ok = false;
            return ;
        }
        let ghost before = self.out@;
        let n = n as u32;
        let (base, limit, one): (u8, u32, u8) = match kind {
            Sized::Text => (0xa0, 32, 0xd9),
            Sized::Binary => (0, 0, 0xc4),
            Sized::Array => (0x90, 16, 0),
            Sized::Table => (0x80, 16, 0),
        };
        let (two, four): (u8, u8) = match kind {
            Sized::Text => (0xda, 0xdb),
            Sized::Binary => (0xc5, 0xc6),
            Sized::Array => (0xdc, 0xdd),
            Sized::Table => (0xde, 0xdf),
        };
        if n < limit {
            self.out.push(base + n as u8);
        } else if n <= 0xff && one != 0 {
            self.out.push(one);
            self.out.push(n as u8);
        } else if n <= 0xffff {
            self.out.push(two);
            put_u16(&mut self.out, n as u16);
        } else {
            self.out.push(four);
            put_u32(&mut self.out, n);
        }
        assert(self.out@ =~= before + enc_len(kind, n));
    }

    /// Writes a number.
    pub fn uint(&mut self, x: u64)
        ensures
            final(self).ok == old(self).ok,
            final(self).out@ == old(self).out@ + enc_uint(x),
    {
        let ghost before = self.out@;
        if x < 0x80 {
            self.out.push(x as u8);
        } else if x <= 0xff {
            self.out.push(0xcc);
            self.out.push(x as u8);
        } else if x <= 0xffff {
            self.out.push(0xcd);
            put_u16(&mut self.out, x as u16);
        } else if x <= 0xffff_ffff {
            self.out.push(0xce);
            put_u32(&mut self.out, x as u32);
        } else {
            self.out.push(0xcf);
            put_u64(&mut self.out, x);
        }
        assert(self.out@ =~= before + enc_uint(x));
    }

    /// Writes a truth value.
    pub fn bool(&mut self, b: bool)
        ensures
            final(self).ok == old(self).ok,
            final(self).out@ == old(self).out@ + enc_bool(b),
    {
        let ghost before = self.out@;
        if b {
            self.out.push(0xc3);
        } else {
            self.out.push(0xc2);
        }
        assert(self.out@ =~= before + enc_bool(b));
    }

    /// Writes nothing, as an element.
    pub fn nil(&mut self)
        ensures
            final(self).ok == old(self).ok,
            final(self).out@ == old(self).out@ + seq![0xc0u8],
    {
        let ghost before = self.out@;
        self.out.push(0xc0);
        assert(self.out@ =~= before + seq![0xc0u8]);
    }

    /// Writes a byte string.
    pub fn bin(&mut self, b: &[u8])
        ensures
            final(self).ok == (old(self).ok && fits(b@.len())),
            final(self).ok ==> final(self).out@ == old(self).out@ + enc_bin(b@),
    {
        let ghost before = self.out@;
        self.len(Sized::Binary, b.len());
        if self.ok {
            append_bytes(&mut self.out, b);
            assert(self.out@ =~= before + enc_bin(b@));
        }
    }

    /// Writes a text.
    pub fn str(&mut self, t: &str)
        ensures
            final(self).ok == (old(self).ok && fits(encode_utf8(t@).len())),
            final(self).ok ==> final(self).out@ == old(self).out@ + enc_str(t@),
    {
        let ghost before = self.out@;
        let b = t.as_bytes();
        self.len(Sized::Text, b.len());
        if self.ok {
            append_bytes(&mut self.out, b);
            assert(self.out@ =~= before + enc_str(t@));
        }
    }

    /// Writes an optional number.
    pub fn opt_uint(&mut self, o: Option<u64>)
        ensures
            final(self).ok == old(self).ok,
            final(self).out@ == old(self).out@ + enc_opt_uint(o),
    {
        match o {
            None => self.nil(),
            Some(x) => self.uint(x),
        }
    }

    /// Writes an optional text.
    pub fn opt_str(&mut self, o: &Option<String>)
        ensures
            final(self).ok == (
                old(self).ok && (o.is_some() ==> fits(encode_utf8(o.unwrap()@).len()))
            ),
            final(self).ok ==> final(self).out@ == old(self).out@ + enc_opt_str(opt_text(*o)),
    {
        match o {
            None => self.nil(),
            Some(t) => self.str(t.as_str()),
        }
    }
}

/// The characters of an optional text.
pub open spec fn opt_text(o: Option<String>) -> Option<Seq<char>> {
    match o {
        Some(t) => Some(t@),
        None => None,
    }
}

/// A place in a byte string from which elements are read one after another.
pub struct Unpacker<'a> {
    buf: &'a [u8],
    pos: usize,
}

impl<'a> Unpacker<'a> {
    /// What is still to be read.
    pub closed spec fn rest(&self) -> Seq<u8> {
        self.buf@.skip(self.pos as int)
    }

    /// What holds of every unpacker: its place lies within the byte string.
    pub closed spec fn wf(&self) -> bool {
        self.pos <= self.buf@.len()
    }

    /// An unpacker at the front of `buf`.
    pub fn new(buf: &'a [u8]) -> (r: Unpacker<'a>)
        ensures
            r.wf(),
            r.rest() == buf@,
    {
        assert(buf@.skip(0) =~= buf@);
        Unpacker { buf, pos: 0 }
    }

    /// Whether everything has been read.
    pub fn at_end(&self) -> (end: bool)
        requires
            self.wf(),
        ensures
            end == (self.rest().len() == 0),
    {
        self.pos == self.buf.len()
    }

    /// Whether nothing, as an element, stands next.
    pub fn peek_nil(&self) -> (nil: bool)
        requires
            self.wf(),
        ensures
            nil == starts_nil(self.rest()),
    {
        self.pos < self.buf.len() && self.buf[self.pos] == 0xc0
    }

    /// Passes over one byte.
    pub fn skip_byte(&mut self)
        requires
            old(self).wf(),
            old(self).rest().len() >= 1,
        ensures
            final(self).wf(),
            final(self).rest() == old(self).rest().skip(1),
    {
        let total = self.buf.len();
        self.pos = self.pos + 1;
        assert(self.rest() =~= old(self).rest().skip(1));
    }

    /// Reads the header of an element of this kind.
    #[verifier::rlimit(40)]
    pub fn len(&mut self, kind: Sized) -> (r: Option<u32>)
        requires
            old(self).wf(),
        ensures
            final(self).wf(),
            r.is_some() == parse_len(kind, old(self).rest()).is_some(),
            r.is_some() ==> parse_len(kind, old(self).rest()) == Some(
                (r.unwrap(), final(self).rest()),
            ),
    {
        let total = self.buf.len();
        let left = total - self.pos;
        if left == 0 {
            return None;
        }
        let first = self.buf[self.pos];
        let ghost s = self.rest();
        assert(s[0] == first);
        let (base, limit, one): (u8, u8, u8) = match kind {
            Sized::Text => (0xa0, 32, 0xd9),
            Sized::Binary => (0, 0, 0xc4),
            Sized::Array => (0x90, 16, 0),
            Sized::Table => (0x80, 16, 0),
        };
        let (two, four): (u8, u8) = match kind {
            Sized::Text => (0xda, 0xdb),
            Sized::Binary => (0xc5, 0xc6),
            Sized::Array => (0xdc, 0xdd),
            Sized::Table => (0xde, 0xdf),
        };
        if first >= base && first - base < limit {
            self.pos = self.pos + 1;
            assert(self.rest() =~= s.skip(1));
            Some((first - base) as u32)
        } else if one != 0 && first == one {
            if left < 2 {
                return None;
            }
            let n = self.buf[self.pos + 1];
            assert(s[1] == n);
            self.pos = self.pos + 2;
            assert(self.rest() =~= s.skip(2));
            Some(n as u32)
        } else if first == two {
            if left < 3 {
                return None;
            }
            let n = get_u16(self.buf, self.pos + 1);
            proof {
                assert(self.buf@.subrange(self.pos + 1, total as int) =~= s.skip(1));
            }
            self.pos = self.pos + 3;
            assert(self.rest() =~= s.skip(3));
            Some(n as u32)
        } else if first == four {
            if left < 5 {
                return None;
            }
            let n = get_u32(self.buf, self.pos + 1);
            proof {
                assert(self.buf@.subrange(self.pos + 1, total as int) =~= s.skip(1));
            }
            self.pos = self.pos + 5;
            assert(self.rest() =~= s.skip(5));
            Some(n)
        } else {
            None
        }
    }

    /// Reads a number.
    #[verifier::rlimit(40)]
    pub fn uint(&mut self) -> (r: Option<u64>)
        requires
            old(self).wf(),
        ensures
            final(self).wf(),
            r.is_some() == parse_uint(old(self).rest()).is_some(),
            r.is_some() ==> parse_uint(old(self).rest()) == Some((r.unwrap(), final(self).rest())),
    {
        let total = self.buf.len();
        let left = total - self.pos;
        if left == 0 {
            return None;
        }
        let first = self.buf[self.pos];
        let ghost s = self.rest();
        assert(s[0] == first);
        if first < 0x80 {
            self.pos = self.pos + 1;
            assert(self.rest() =~= s.skip(1));
            Some(first as u64)
        } else if first == 0xcc {
            if left < 2 {
                return None;
            }
            let n = self.buf[self.pos + 1];
            assert(s[1] == n);
            self.pos = self.pos + 2;
            assert(self.rest() =~= s.skip(2));
            Some(n as u64)
        } else if first == 0xcd {
            if left < 3 {
                return None;
            }
            let n = get_u16(self.buf, self.pos + 1);
            proof {
                assert(self.buf@.subrange(self.pos + 1, total as int) =~= s.skip(1));
            }
            self.pos = self.pos + 3;
            assert(self.rest() =~= s.skip(3));
            Some(n as u64)
        } else if first == 0xce {
            if left < 5 {
                return None;
            }
            let n = get_u32(self.buf, self.pos + 1);
            proof {
                assert(self.buf@.subrange(self.pos + 1, total as int) =~= s.skip(1));
            }
            self.pos = self.pos + 5;
            assert(self.rest() =~= s.skip(5));
            Some(n as u64)
        } else if first == 0xcf {
            if left < 9 {
                return None;
            }
            let n = get_u64(self.buf, self.pos + 1);
            proof {
                assert(self.buf@.subrange(self.pos + 1, total as int) =~= s.skip(1));
            }
            self.pos = self.pos + 9;
            assert(self.rest() =~= s.skip(9));
            Some(n)
        } else {
            None
        }
    }

    /// Reads a truth value.
    pub fn bool(&mut self) -> (r: Option<bool>)
        requires
            old(self).wf(),
        ensures
            final(self).wf(),
            r.is_some() == parse_bool(old(self).rest()).is_some(),
            r.is_some() ==> parse_bool(old(self).rest()) == Some((r.unwrap(), final(self).rest())),
    {
        if self.pos == self.buf.len() {
            return None;
        }
        let first = self.buf[self.pos];
        let ghost s = self.rest();
        assert(s[0] == first);
        if first == 0xc3 {
            self.pos = self.pos + 1;
            assert(self.rest() =~= s.skip(1));
            Some(true)
        } else if first == 0xc2 {
            self.pos = self.pos + 1;
            assert(self.rest() =~= s.skip(1));
            Some(false)
        } else {
            None
        }
    }

    /// Reads the `n` bytes of an element whose header has been read.
    fn body(&mut self, n: u32) -> (r: Option<Vec<u8>>)
        requires
            old(self).wf(),
        ensures
            final(self).wf(),
            r.is_some() == (n <= old(self).rest().len()),
            r.is_some() ==> ({
                &&& r.unwrap()@ == old(self).rest().take(n as int)
                &&& final(self).rest() == old(self).rest().skip(n as int)
            }),
    {
        let left = self.buf.len() - self.pos;
        if n as u64 > left as u64 {
            return None;
        }
        let n = n as usize;
        let b = copy_range(self.buf, self.pos, self.pos + n);
        self.pos = self.pos + n;
        proof {
            assert(b@ =~= old(self).rest().take(n as int));
            assert(self.rest() =~= old(self).rest().skip(n as int));
        }
        Some(b)
    }

    /// Reads a byte string.
    pub fn bin(&mut self) -> (r: Option<Vec<u8>>)
        requires
            old(self).wf(),
        ensures
            final(self).wf(),
            r.is_some() == parse_bin(old(self).rest()).is_some(),
            r.is_some() ==> parse_bin(old(self).rest()) == Some((r.unwrap()@, final(self).rest())),
    {
        match self.len(Sized::Binary) {
            None => None,
            Some(n) => self.body(n),
        }
    }

    /// Reads a text.
    pub fn str(&mut self) -> (r: Option<String>)
        requires
            old(self).wf(),
        ensures
            final(self).wf(),
            r.is_some() == parse_str(old(self).rest()).is_some(),
            r.is_some() ==> parse_str(old(self).rest()) == Some((r.unwrap()@, final(self).rest())),
    {
        match self.len(Sized::Text) {
            None => None,
            Some(n) => match self.body(n) {
                None => None,
                Some(b) => string_from_utf8(b),
            },
        }
    }

    /// Reads a text and tells whether it is `key`.
    pub fn key(&mut self, key: &str) -> (found: bool)
        requires
            old(self).wf(),
        ensures
            final(self).wf(),
            found == parse_key(old(self).rest(), key@).is_some(),
            found ==> parse_key(old(self).rest(), key@) == Some(final(self).rest()),
    {
        match self.str() {
            None => false,
            Some(t) => same_text(t.as_str(), key),
        }
    }

    /// Reads an optional number.
    pub fn opt_uint(&mut self) -> (r: Option<Option<u64>>)
        requires
            old(self).wf(),
        ensures
            final(self).wf(),
            r.is_some() == parse_opt_uint(old(self).rest()).is_some(),
            r.is_some() ==> parse_opt_uint(old(self).rest()) == Some(
                (r.unwrap(), final(self).rest()),
            ),
    {
        if self.peek_nil() {
            self.skip_byte();
            Some(None)
        } else {
            match self.uint() {
                None => None,
                Some(x) => Some(Some(x)),
            }
        }
    }

    /// Reads an optional text.
    pub fn opt_str(&mut self) -> (r: Option<Option<String>>)
        requires
            old(self).wf(),
        ensures
            final(self).wf(),
            r.is_some() == parse_opt_str(old(self).rest()).is_some(),
            r.is_some() ==> parse_opt_str(old(self).rest()) == Some(
                (opt_text(r.unwrap()), final(self).rest()),
            ),
    {
        if self.peek_nil() {
            self.skip_byte();
            Some(None)
        } else {
            match self.str() {
                None => None,
                Some(t) => Some(Some(t)),
            }
        }
    }
}

} // verus!
