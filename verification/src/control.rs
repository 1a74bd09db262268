//! The wire format of the control socket: commands and answers as
//! MessagePack maps, each with the name of the message first and then its
//! fields under their names. Block ids travel as decimal text; byte
//! payloads travel as raw bytes.

use vstd::prelude::*;
use vstd::string::StringExecFns;
use vstd::utf8::encode_utf8;

use crate::blocks::Durability;
use crate::consent::PendingConsent;
use crate::pack::enc_bin;
use crate::pack::enc_bool;
use crate::pack::enc_len;
use crate::pack::enc_opt_str;
use crate::pack::enc_opt_uint;
use crate::pack::enc_str;
use crate::pack::enc_uint;
use crate::pack::fits;
use crate::pack::lemma_parse_bin;
use crate::pack::lemma_parse_bool;
use crate::pack::lemma_parse_len;
use crate::pack::lemma_parse_opt_str;
use crate::pack::lemma_parse_opt_uint;
use crate::pack::lemma_parse_str;
use crate::pack::lemma_parse_uint;
use crate::pack::opt_text;
use crate::pack::parse_bin;
use crate::pack::parse_bool;
use crate::pack::parse_key;
use crate::pack::parse_len;
use crate::pack::parse_opt_str;
use crate::pack::parse_opt_uint;
use crate::pack::parse_str;
use crate::pack::parse_uint;
use crate::pack::same_text;
use crate::pack::starts_nil;
use crate::pack::Packer;
use crate::pack::Sized;
use crate::pack::Unpacker;
use crate::peers::PeerMetadata;
use crate::rpc::SdkCommand;
use crate::rpc::SdkResponse;
use crate::string_id::decimal_text;
use crate::string_id::deserialize;
use crate::string_id::id_of_text;
use crate::string_id::lemma_id_text_roundtrip;
use crate::string_id::serialize;
use crate::trust::TrustedDevice;

verus! {

/// The UTF-8 form of a text is at most four times as long as the text.
pub proof fn lemma_utf8_length(t: Seq<char>)
    ensures
        encode_utf8(t).len() <= 4 * t.len(),
    decreases t.len(),
{
    if t.len() > 0 {
        lemma_utf8_length(t.drop_first());
    }
}

/// A text of at most a thousand characters is short enough to be written.
pub proof fn lemma_short_text_fits(t: Seq<char>)
    requires
        t.len() <= 1000,
    ensures
        fits(encode_utf8(t).len()),
{
    lemma_utf8_length(t);
}

/// The decimal text of a number of 64 bits has at most twenty digits.
pub proof fn lemma_decimal_text_is_short(n: nat, digits: nat)
    requires
        digits >= 1,
        n < power_of_ten(digits),
    ensures
        decimal_text(n).len() <= digits,
    decreases digits,
{
    if n >= 10 {
        assert(digits >= 2) by {
            assert(power_of_ten(1) == 10) by {
                assert(power_of_ten(0) == 1);
            }
        }
        lemma_decimal_text_is_short(n / 10, (digits - 1) as nat);
    }
}

/// Ten to the power of `k`.
pub open spec fn power_of_ten(k: nat) -> nat
    decreases k,
{
    if k == 0 {
        1
    } else {
        10 * power_of_ten((k - 1) as nat)
    }
}

/// The decimal text of a block id is short enough to be written.
pub proof fn lemma_id_text_fits(id: u64)
    ensures
        fits(encode_utf8(decimal_text(id as nat)).len()),
{
    assert(power_of_ten(20) == 100_000_000_000_000_000_000nat) by {
        reveal_with_fuel(power_of_ten, 21);
    }
    lemma_decimal_text_is_short(id as nat, 20);
    lemma_utf8_length(decimal_text(id as nat));
}

/// A block id: its decimal text.
pub open spec fn enc_id(id: u64) -> Seq<u8> {
    enc_str(decimal_text(id as nat))
}

/// The block id at the front of `s`, and the rest.
pub open spec fn parse_id(s: Seq<u8>) -> Option<(u64, Seq<u8>)> {
    match parse_str(s) {
        Some((t, rest)) => match id_of_text(t) {
            Ok(id) => Some((id, rest)),
            Err(_) => None,
        },
        None => None,
    }
}

/// A block id, read back, is the same id, with what follows it.
pub proof fn lemma_parse_id(id: u64, rest: Seq<u8>)
    ensures
        parse_id(enc_id(id) + rest) == Some((id, rest)),
{
    lemma_id_text_fits(id);
    lemma_parse_str(decimal_text(id as nat), rest);
    lemma_id_text_roundtrip(id);
}

/// A number of 32 bits.
pub open spec fn enc_u32(x: u32) -> Seq<u8> {
    enc_uint(x as u64)
}

/// The number of 32 bits at the front of `s`, and the rest.
pub open spec fn parse_u32(s: Seq<u8>) -> Option<(u32, Seq<u8>)> {
    match parse_uint(s) {
        Some((x, rest)) => if x <= u32::MAX {
            Some((x as u32, rest))
        } else {
            None
        },
        None => None,
    }
}

/// A number of 32 bits, read back, is the same, with what follows it.
pub proof fn lemma_parse_u32(x: u32, rest: Seq<u8>)
    ensures
        parse_u32(enc_u32(x) + rest) == Some((x, rest)),
{
    lemma_parse_uint(x as u64, rest);
}

/// A count.
pub open spec fn enc_usize(x: usize) -> Seq<u8> {
    enc_uint(x as u64)
}

/// The count at the front of `s`, and the rest.
pub open spec fn parse_usize(s: Seq<u8>) -> Option<(usize, Seq<u8>)> {
    match parse_uint(s) {
        Some((x, rest)) => if x <= usize::MAX {
            Some((x as usize, rest))
        } else {
            None
        },
        None => None,
    }
}

/// A count, read back, is the same, with what follows it.
pub proof fn lemma_parse_usize(x: usize, rest: Seq<u8>)
    ensures
        parse_usize(enc_usize(x) + rest) == Some((x, rest)),
{
    lemma_parse_uint(x as u64, rest);
}

/// An optional durability: nothing, or its name.
pub open spec fn enc_mode(o: Option<Durability>) -> Seq<u8> {
    match o {
        None => seq![0xc0u8],
        Some(Durability::Pinned) => enc_str("Pinned"@),
        Some(Durability::Cache) => enc_str("Cache"@),
    }
}

/// The optional durability at the front of `s`, and the rest.
pub open spec fn parse_mode(s: Seq<u8>) -> Option<(Option<Durability>, Seq<u8>)> {
    if starts_nil(s) {
        Some((None, s.skip(1)))
    } else {
        match parse_str(s) {
            Some((t, rest)) => if t == "Pinned"@ {
                Some((Some(Durability::Pinned), rest))
            } else if t == "Cache"@ {
                Some((Some(Durability::Cache), rest))
            } else {
                None
            },
            None => None,
        }
    }
}

/// An optional durability, read back, is the same, with what follows it.
pub proof fn lemma_parse_mode(o: Option<Durability>, rest: Seq<u8>)
    ensures
        parse_mode(enc_mode(o) + rest) == Some((o, rest)),
{
    reveal_strlit("Pinned");
    reveal_strlit("Cache");
    lemma_short_text_fits("Pinned"@);
    lemma_short_text_fits("Cache"@);
    assert("Pinned"@.len() != "Cache"@.len());
    match o {
        None => {
            let s = enc_mode(o) + rest;
            assert(s[0] == 0xc0);
            assert(s.skip(1) =~= rest);
        },
        Some(Durability::Pinned) => {
            lemma_parse_str("Pinned"@, rest);
        },
        Some(Durability::Cache) => {
            lemma_parse_str("Cache"@, rest);
        },
    }
}

/// Writes a block id.
fn pack_id(p: &mut Packer, id: u64)
    ensures
        final(p).ok == old(p).ok,
        final(p).ok ==> final(p).out@ == old(p).out@ + enc_id(id),
{
    proof {
        lemma_id_text_fits(id);
    }
    let text = serialize(&id);
    p.str(text.as_str());
}

/// Reads a block id.
fn unpack_id(u: &mut Unpacker) -> (r: Option<u64>)
    requires
        old(u).wf(),
    ensures
        final(u).wf(),
        r.is_some() == parse_id(old(u).rest()).is_some(),
        r.is_some() ==> parse_id(old(u).rest()) == Some((r.unwrap(), final(u).rest())),
{
    match u.str() {
        None => None,
        Some(t) => match deserialize(t.as_str()) {
            Ok(id) => Some(id),
            Err(_) => None,
        },
    }
}

/// Reads a number of 32 bits.
fn unpack_u32(u: &mut Unpacker) -> (r: Option<u32>)
    requires
        old(u).wf(),
    ensures
        final(u).wf(),
        r.is_some() == parse_u32(old(u).rest()).is_some(),
        r.is_some() ==> parse_u32(old(u).rest()) == Some((r.unwrap(), final(u).rest())),
{
    match u.uint() {
        None => None,
        Some(x) => if x <= u32::MAX as u64 {
            Some(x as u32)
        } else {
            None
        },
    }
}

/// Reads a count.
fn unpack_usize(u: &mut Unpacker) -> (r: Option<usize>)
    requires
        old(u).wf(),
    ensures
        final(u).wf(),
        r.is_some() == parse_usize(old(u).rest()).is_some(),
        r.is_some() ==> parse_usize(old(u).rest()) == Some((r.unwrap(), final(u).rest())),
{
    match u.uint() {
        None => None,
        Some(x) => if x <= usize::MAX as u64 {
            Some(x as usize)
        } else {
            None
        },
    }
}

/// Writes an optional durability.
fn pack_mode(p: &mut Packer, o: Option<Durability>)
    ensures
        final(p).ok == old(p).ok,
        final(p).ok ==> final(p).out@ == old(p).out@ + enc_mode(o),
{
    proof {
        reveal_strlit("Pinned");
        reveal_strlit("Cache");
        lemma_short_text_fits("Pinned"@);
        lemma_short_text_fits("Cache"@);
    }
    match o {
        None => p.nil(),
        Some(Durability::Pinned) => p.str("Pinned"),
        Some(Durability::Cache) => p.str("Cache"),
    }
}

/// Reads an optional durability.
fn unpack_mode(u: &mut Unpacker) -> (r: Option<Option<Durability>>)
    requires
        old(u).wf(),
    ensures
        final(u).wf(),
        r.is_some() == parse_mode(old(u).rest()).is_some(),
        r.is_some() ==> parse_mode(old(u).rest()) == Some((r.unwrap(), final(u).rest())),
{
    if u.peek_nil() {
        u.skip_byte();
        Some(None)
    } else {
        match u.str() {
            None => None,
            Some(t) => if same_text(t.as_str(), "Pinned") {
                Some(Some(Durability::Pinned))
            } else if same_text(t.as_str(), "Cache") {
                Some(Some(Durability::Cache))
            } else {
                None
            },
        }
    }
}

/// Whether a text is short enough to be written.
pub open spec fn text_fits(t: Seq<char>) -> bool {
    fits(encode_utf8(t).len())
}

/// Whether an optional text is short enough to be written.
pub open spec fn opt_text_fits(o: Option<Seq<char>>) -> bool {
    o.is_some() ==> fits(encode_utf8(o.unwrap()).len())
}

/// Whether a byte string is short enough to be written.
pub open spec fn bin_fits(b: Seq<u8>) -> bool {
    fits(b.len())
}

/// An entry of a map: the key, as a text, and then the bytes of the value.
pub open spec fn entry(key: Seq<char>, value: Seq<u8>) -> Seq<u8> {
    enc_str(key) + value
}

/// Joining byte strings does not depend on where the brackets stand.
pub proof fn lemma_join(a: Seq<u8>, b: Seq<u8>, c: Seq<u8>)
    ensures
        (a + b) + c == a + (b + c),
{
    assert((a + b) + c =~= a + (b + c));
}

/// A text, read back, is the text, with what follows it.
pub proof fn lemma_parse_text(t: Seq<char>, rest: Seq<u8>)
    requires
        text_fits(t),
    ensures
        parse_str(enc_str(t) + rest) == Some((t, rest)),
{
    lemma_parse_str(t, rest);
}

/// An optional text, read back, is the same, with what follows it.
pub proof fn lemma_parse_opt_text(o: Option<Seq<char>>, rest: Seq<u8>)
    requires
        opt_text_fits(o),
    ensures
        parse_opt_str(enc_opt_str(o) + rest) == Some((o, rest)),
{
    lemma_parse_opt_str(o, rest);
}

/// The entry of a map that holds a byte string under `key`, at the front of `s`,
/// and the rest.
#[verifier::opaque]
pub open spec fn bin_field(s: Seq<u8>, key: Seq<char>) -> Option<(Seq<u8>, Seq<u8>)> {
    match parse_key(s, key) {
        Some(rest) => parse_bin(rest),
        None => None,
    }
}

/// An entry that holds a byte string, read back, gives what it holds, with
/// what follows it.
pub proof fn lemma_bin_field(key: Seq<char>, v: Seq<u8>, rest: Seq<u8>)
    requires
        key.len() <= 1000,
        bin_fits(v),
    ensures
        bin_field(entry(key, enc_bin(v)) + rest, key) == Some((v, rest)),
{
    reveal(bin_field);
    lemma_short_text_fits(key);
    let after = enc_bin(v) + rest;
    assert(entry(key, enc_bin(v)) + rest =~= enc_str(key) + after);
    lemma_parse_str(key, after);
    lemma_parse_bin(v, rest);
}

/// Writes an entry that holds a byte string under `key`.
fn put_bin(p: &mut Packer, key: &str, v: &Vec<u8>)
    requires
        key@.len() <= 1000,
    ensures
        final(p).ok == (old(p).ok && bin_fits(v@)),
        final(p).ok ==> final(p).out@ == old(p).out@ + entry(key@, enc_bin(v@)),
{
    proof {
        lemma_short_text_fits(key@);
    }
    let ghost before = p.out@;
    p.str(key);
    p.bin(v.as_slice());
    proof {
        if p.ok {
            assert(p.out@ =~= before + entry(key@, enc_bin(v@)));
        }
    }
}

/// Reads an entry that holds a byte string under `key`.
fn get_bin(u: &mut Unpacker, key: &str) -> (r: Option<Vec<u8>>)
    requires
        old(u).wf(),
    ensures
        final(u).wf(),
        r.is_some() == bin_field(old(u).rest(), key@).is_some(),
        r.is_some() ==> bin_field(old(u).rest(), key@) == Some(
            (r.unwrap()@, final(u).rest()),
        ),
{
    reveal(bin_field);
    if !u.key(key) {
        return None;
    }
    u.bin()
}

/// The entry of a map that holds a text under `key`, at the front of `s`,
/// and the rest.
#[verifier::opaque]
pub open spec fn str_field(s: Seq<u8>, key: Seq<char>) -> Option<(Seq<char>, Seq<u8>)> {
    match parse_key(s, key) {
        Some(rest) => parse_str(rest),
        None => None,
    }
}

/// An entry that holds a text, read back, gives what it holds, with
/// what follows it.
pub proof fn lemma_str_field(key: Seq<char>, v: Seq<char>, rest: Seq<u8>)
    requires
        key.len() <= 1000,
        text_fits(v),
    ensures
        str_field(entry(key, enc_str(v)) + rest, key) == Some((v, rest)),
{
    reveal(str_field);
    lemma_short_text_fits(key);
    let after = enc_str(v) + rest;
    assert(entry(key, enc_str(v)) + rest =~= enc_str(key) + after);
    lemma_parse_str(key, after);
    lemma_parse_text(v, rest);
}

/// Writes an entry that holds a text under `key`.
fn put_str(p: &mut Packer, key: &str, v: &String)
    requires
        key@.len() <= 1000,
    ensures
        final(p).ok == (old(p).ok && text_fits(v@)),
        final(p).ok ==> final(p).out@ == old(p).out@ + entry(key@, enc_str(v@)),
{
    proof {
        lemma_short_text_fits(key@);
    }
    let ghost before = p.out@;
    p.str(key);
    p.str(v.as_str());
    proof {
        if p.ok {
            assert(p.out@ =~= before + entry(key@, enc_str(v@)));
        }
    }
}

/// Reads an entry that holds a text under `key`.
fn get_str(u: &mut Unpacker, key: &str) -> (r: Option<String>)
    requires
        old(u).wf(),
    ensures
        final(u).wf(),
        r.is_some() == str_field(old(u).rest(), key@).is_some(),
        r.is_some() ==> str_field(old(u).rest(), key@) == Some(
            (r.unwrap()@, final(u).rest()),
        ),
{
    reveal(str_field);
    if !u.key(key) {
        return None;
    }
    u.str()
}

/// The entry of a map that holds an optional text under `key`, at the front of `s`,
/// and the rest.
#[verifier::opaque]
pub open spec fn opt_str_field(s: Seq<u8>, key: Seq<char>) -> Option<(Option<Seq<char>>, Seq<u8>)> {
    match parse_key(s, key) {
        Some(rest) => parse_opt_str(rest),
        None => None,
    }
}

/// An entry that holds an optional text, read back, gives what it holds, with
/// what follows it.
pub proof fn lemma_opt_str_field(key: Seq<char>, v: Option<Seq<char>>, rest: Seq<u8>)
    requires
        key.len() <= 1000,
        opt_text_fits(v),
    ensures
        opt_str_field(entry(key, enc_opt_str(v)) + rest, key) == Some((v, rest)),
{
    reveal(opt_str_field);
    lemma_short_text_fits(key);
    let after = enc_opt_str(v) + rest;
    assert(entry(key, enc_opt_str(v)) + rest =~= enc_str(key) + after);
    lemma_parse_str(key, after);
    lemma_parse_opt_text(v, rest);
}

/// Writes an entry that holds an optional text under `key`.
fn put_opt_str(p: &mut Packer, key: &str, v: &Option<String>)
    requires
        key@.len() <= 1000,
    ensures
        final(p).ok == (old(p).ok && opt_text_fits(opt_text(*v))),
        final(p).ok ==> final(p).out@ == old(p).out@ + entry(key@, enc_opt_str(opt_text(*v))),
{
    proof {
        lemma_short_text_fits(key@);
    }
    let ghost before = p.out@;
    p.str(key);
    p.opt_str(v);
    proof {
        if p.ok {
            assert(p.out@ =~= before + entry(key@, enc_opt_str(opt_text(*v))));
        }
    }
}

/// Reads an entry that holds an optional text under `key`.
fn get_opt_str(u: &mut Unpacker, key: &str) -> (r: Option<Option<String>>)
    requires
        old(u).wf(),
    ensures
        final(u).wf(),
        r.is_some() == opt_str_field(old(u).rest(), key@).is_some(),
        r.is_some() ==> opt_str_field(old(u).rest(), key@) == Some(
            (opt_text(r.unwrap()), final(u).rest()),
        ),
{
    reveal(opt_str_field);
    if !u.key(key) {
        return None;
    }
    u.opt_str()
}

/// The entry of a map that holds a number under `key`, at the front of `s`,
/// and the rest.
#[verifier::opaque]
pub open spec fn uint_field(s: Seq<u8>, key: Seq<char>) -> Option<(u64, Seq<u8>)> {
    match parse_key(s, key) {
        Some(rest) => parse_uint(rest),
        None => None,
    }
}

/// An entry that holds a number, read back, gives what it holds, with
/// what follows it.
pub proof fn lemma_uint_field(key: Seq<char>, v: u64, rest: Seq<u8>)
    requires
        key.len() <= 1000,
    ensures
        uint_field(entry(key, enc_uint(v)) + rest, key) == Some((v, rest)),
{
    reveal(uint_field);
    lemma_short_text_fits(key);
    let after = enc_uint(v) + rest;
    assert(entry(key, enc_uint(v)) + rest =~= enc_str(key) + after);
    lemma_parse_str(key, after);
    lemma_parse_uint(v, rest);
}

/// Writes an entry that holds a number under `key`.
fn put_uint(p: &mut Packer, key: &str, v: &u64)
    requires
        key@.len() <= 1000,
    ensures
        final(p).ok == old(p).ok,
        final(p).ok ==> final(p).out@ == old(p).out@ + entry(key@, enc_uint(*v)),
{
    proof {
        lemma_short_text_fits(key@);
    }
    let ghost before = p.out@;
    p.str(key);
    p.uint(*v);
    proof {
        if p.ok {
            assert(p.out@ =~= before + entry(key@, enc_uint(*v)));
        }
    }
}

/// Reads an entry that holds a number under `key`.
fn get_uint(u: &mut Unpacker, key: &str) -> (r: Option<u64>)
    requires
        old(u).wf(),
    ensures
        final(u).wf(),
        r.is_some() == uint_field(old(u).rest(), key@).is_some(),
        r.is_some() ==> uint_field(old(u).rest(), key@) == Some(
            (r.unwrap(), final(u).rest()),
        ),
{
    reveal(uint_field);
    if !u.key(key) {
        return None;
    }
    u.uint()
}

/// The entry of a map that holds an optional number under `key`, at the front of `s`,
/// and the rest.
#[verifier::opaque]
pub open spec fn opt_uint_field(s: Seq<u8>, key: Seq<char>) -> Option<(Option<u64>, Seq<u8>)> {
    match parse_key(s, key) {
        Some(rest) => parse_opt_uint(rest),
        None => None,
    }
}

/// An entry that holds an optional number, read back, gives what it holds, with
/// what follows it.
pub proof fn lemma_opt_uint_field(key: Seq<char>, v: Option<u64>, rest: Seq<u8>)
    requires
        key.len() <= 1000,
    ensures
        opt_uint_field(entry(key, enc_opt_uint(v)) + rest, key) == Some((v, rest)),
{
    reveal(opt_uint_field);
    lemma_short_text_fits(key);
    let after = enc_opt_uint(v) + rest;
    assert(entry(key, enc_opt_uint(v)) + rest =~= enc_str(key) + after);
    lemma_parse_str(key, after);
    lemma_parse_opt_uint(v, rest);
}

/// Writes an entry that holds an optional number under `key`.
fn put_opt_uint(p: &mut Packer, key: &str, v: &Option<u64>)
    requires
        key@.len() <= 1000,
    ensures
        final(p).ok == old(p).ok,
        final(p).ok ==> final(p).out@ == old(p).out@ + entry(key@, enc_opt_uint(*v)),
{
    proof {
        lemma_short_text_fits(key@);
    }
    let ghost before = p.out@;
    p.str(key);
    p.opt_uint(*v);
    proof {
        if p.ok {
            assert(p.out@ =~= before + entry(key@, enc_opt_uint(*v)));
        }
    }
}

/// Reads an entry that holds an optional number under `key`.
fn get_opt_uint(u: &mut Unpacker, key: &str) -> (r: Option<Option<u64>>)
    requires
        old(u).wf(),
    ensures
        final(u).wf(),
        r.is_some() == opt_uint_field(old(u).rest(), key@).is_some(),
        r.is_some() ==> opt_uint_field(old(u).rest(), key@) == Some(
            (r.unwrap(), final(u).rest()),
        ),
{
    reveal(opt_uint_field);
    if !u.key(key) {
        return None;
    }
    u.opt_uint()
}

/// The entry of a map that holds a number of 32 bits under `key`, at the front of `s`,
/// and the rest.
#[verifier::opaque]
pub open spec fn u32_field(s: Seq<u8>, key: Seq<char>) -> Option<(u32, Seq<u8>)> {
    match parse_key(s, key) {
        Some(rest) => parse_u32(rest),
        None => None,
    }
}

/// An entry that holds a number of 32 bits, read back, gives what it holds, with
/// what follows it.
pub proof fn lemma_u32_field(key: Seq<char>, v: u32, rest: Seq<u8>)
    requires
        key.len() <= 1000,
    ensures
        u32_field(entry(key, enc_u32(v)) + rest, key) == Some((v, rest)),
{
    reveal(u32_field);
    lemma_short_text_fits(key);
    let after = enc_u32(v) + rest;
    assert(entry(key, enc_u32(v)) + rest =~= enc_str(key) + after);
    lemma_parse_str(key, after);
    lemma_parse_u32(v, rest);
}

/// Writes an entry that holds a number of 32 bits under `key`.
fn put_u32(p: &mut Packer, key: &str, v: &u32)
    requires
        key@.len() <= 1000,
    ensures
        final(p).ok == old(p).ok,
        final(p).ok ==> final(p).out@ == old(p).out@ + entry(key@, enc_u32(*v)),
{
    proof {
        lemma_short_text_fits(key@);
    }
    let ghost before = p.out@;
    p.str(key);
    p.uint(*v as u64);
    proof {
        if p.ok {
            assert(p.out@ =~= before + entry(key@, enc_u32(*v)));
        }
    }
}

/// Reads an entry that holds a number of 32 bits under `key`.
fn get_u32(u: &mut Unpacker, key: &str) -> (r: Option<u32>)
    requires
        old(u).wf(),
    ensures
        final(u).wf(),
        r.is_some() == u32_field(old(u).rest(), key@).is_some(),
        r.is_some() ==> u32_field(old(u).rest(), key@) == Some(
            (r.unwrap(), final(u).rest()),
        ),
{
    reveal(u32_field);
    if !u.key(key) {
        return None;
    }
    unpack_u32(u)
}

/// The entry of a map that holds a count under `key`, at the front of `s`,
/// and the rest.
#[verifier::opaque]
pub open spec fn usize_field(s: Seq<u8>, key: Seq<char>) -> Option<(usize, Seq<u8>)> {
    match parse_key(s, key) {
        Some(rest) => parse_usize(rest),
        None => None,
    }
}

/// An entry that holds a count, read back, gives what it holds, with
/// what follows it.
pub proof fn lemma_usize_field(key: Seq<char>, v: usize, rest: Seq<u8>)
    requires
        key.len() <= 1000,
    ensures
        usize_field(entry(key, enc_usize(v)) + rest, key) == Some((v, rest)),
{
    reveal(usize_field);
    lemma_short_text_fits(key);
    let after = enc_usize(v) + rest;
    assert(entry(key, enc_usize(v)) + rest =~= enc_str(key) + after);
    lemma_parse_str(key, after);
    lemma_parse_usize(v, rest);
}

/// Writes an entry that holds a count under `key`.
fn put_usize(p: &mut Packer, key: &str, v: &usize)
    requires
        key@.len() <= 1000,
    ensures
        final(p).ok == old(p).ok,
        final(p).ok ==> final(p).out@ == old(p).out@ + entry(key@, enc_usize(*v)),
{
    proof {
        lemma_short_text_fits(key@);
    }
    let ghost before = p.out@;
    p.str(key);
    p.uint(*v as u64);
    proof {
        if p.ok {
            assert(p.out@ =~= before + entry(key@, enc_usize(*v)));
        }
    }
}

/// Reads an entry that holds a count under `key`.
fn get_usize(u: &mut Unpacker, key: &str) -> (r: Option<usize>)
    requires
        old(u).wf(),
    ensures
        final(u).wf(),
        r.is_some() == usize_field(old(u).rest(), key@).is_some(),
        r.is_some() ==> usize_field(old(u).rest(), key@) == Some(
            (r.unwrap(), final(u).rest()),
        ),
{
    reveal(usize_field);
    if !u.key(key) {
        return None;
    }
    unpack_usize(u)
}

/// The entry of a map that holds a truth value under `key`, at the front of `s`,
/// and the rest.
#[verifier::opaque]
pub open spec fn bool_field(s: Seq<u8>, key: Seq<char>) -> Option<(bool, Seq<u8>)> {
    match parse_key(s, key) {
        Some(rest) => parse_bool(rest),
        None => None,
    }
}

/// An entry that holds a truth value, read back, gives what it holds, with
/// what follows it.
pub proof fn lemma_bool_field(key: Seq<char>, v: bool, rest: Seq<u8>)
    requires
        key.len() <= 1000,
    ensures
        bool_field(entry(key, enc_bool(v)) + rest, key) == Some((v, rest)),
{
    reveal(bool_field);
    lemma_short_text_fits(key);
    let after = enc_bool(v) + rest;
    assert(entry(key, enc_bool(v)) + rest =~= enc_str(key) + after);
    lemma_parse_str(key, after);
    lemma_parse_bool(v, rest);
}

/// Writes an entry that holds a truth value under `key`.
fn put_bool(p: &mut Packer, key: &str, v: &bool)
    requires
        key@.len() <= 1000,
    ensures
        final(p).ok == old(p).ok,
        final(p).ok ==> final(p).out@ == old(p).out@ + entry(key@, enc_bool(*v)),
{
    proof {
        lemma_short_text_fits(key@);
    }
    let ghost before = p.out@;
    p.str(key);
    p.bool(*v);
    proof {
        if p.ok {
            assert(p.out@ =~= before + entry(key@, enc_bool(*v)));
        }
    }
}

/// Reads an entry that holds a truth value under `key`.
fn get_bool(u: &mut Unpacker, key: &str) -> (r: Option<bool>)
    requires
        old(u).wf(),
    ensures
        final(u).wf(),
        r.is_some() == bool_field(old(u).rest(), key@).is_some(),
        r.is_some() ==> bool_field(old(u).rest(), key@) == Some(
            (r.unwrap(), final(u).rest()),
        ),
{
    reveal(bool_field);
    if !u.key(key) {
        return None;
    }
    u.bool()
}

/// The entry of a map that holds a block id under `key`, at the front of `s`,
/// and the rest.
#[verifier::opaque]
pub open spec fn id_field(s: Seq<u8>, key: Seq<char>) -> Option<(u64, Seq<u8>)> {
    match parse_key(s, key) {
        Some(rest) => parse_id(rest),
        None => None,
    }
}

/// An entry that holds a block id, read back, gives what it holds, with
/// what follows it.
pub proof fn lemma_id_field(key: Seq<char>, v: u64, rest: Seq<u8>)
    requires
        key.len() <= 1000,
    ensures
        id_field(entry(key, enc_id(v)) + rest, key) == Some((v, rest)),
{
    reveal(id_field);
    lemma_short_text_fits(key);
    let after = enc_id(v) + rest;
    assert(entry(key, enc_id(v)) + rest =~= enc_str(key) + after);
    lemma_parse_str(key, after);
    lemma_parse_id(v, rest);
}

/// Writes an entry that holds a block id under `key`.
fn put_id(p: &mut Packer, key: &str, v: &u64)
    requires
        key@.len() <= 1000,
    ensures
        final(p).ok == old(p).ok,
        final(p).ok ==> final(p).out@ == old(p).out@ + entry(key@, enc_id(*v)),
{
    proof {
        lemma_short_text_fits(key@);
    }
    let ghost before = p.out@;
    p.str(key);
    pack_id(p, *v);
    proof {
        if p.ok {
            assert(p.out@ =~= before + entry(key@, enc_id(*v)));
        }
    }
}

/// Reads an entry that holds a block id under `key`.
fn get_id(u: &mut Unpacker, key: &str) -> (r: Option<u64>)
    requires
        old(u).wf(),
    ensures
        final(u).wf(),
        r.is_some() == id_field(old(u).rest(), key@).is_some(),
        r.is_some() ==> id_field(old(u).rest(), key@) == Some(
            (r.unwrap(), final(u).rest()),
        ),
{
    reveal(id_field);
    if !u.key(key) {
        return None;
    }
    unpack_id(u)
}

/// The entry of a map that holds an optional durability under `key`, at the front of `s`,
/// and the rest.
#[verifier::opaque]
pub open spec fn mode_field(s: Seq<u8>, key: Seq<char>) -> Option<(Option<Durability>, Seq<u8>)> {
    match parse_key(s, key) {
        Some(rest) => parse_mode(rest),
        None => None,
    }
}

/// An entry that holds an optional durability, read back, gives what it holds, with
/// what follows it.
pub proof fn lemma_mode_field(key: Seq<char>, v: Option<Durability>, rest: Seq<u8>)
    requires
        key.len() <= 1000,
    ensures
        mode_field(entry(key, enc_mode(v)) + rest, key) == Some((v, rest)),
{
    reveal(mode_field);
    lemma_short_text_fits(key);
    let after = enc_mode(v) + rest;
    assert(entry(key, enc_mode(v)) + rest =~= enc_str(key) + after);
    lemma_parse_str(key, after);
    lemma_parse_mode(v, rest);
}

/// Writes an entry that holds an optional durability under `key`.
fn put_mode(p: &mut Packer, key: &str, v: &Option<Durability>)
    requires
        key@.len() <= 1000,
    ensures
        final(p).ok == old(p).ok,
        final(p).ok ==> final(p).out@ == old(p).out@ + entry(key@, enc_mode(*v)),
{
    proof {
        lemma_short_text_fits(key@);
    }
    let ghost before = p.out@;
    p.str(key);
    pack_mode(p, *v);
    proof {
        if p.ok {
            assert(p.out@ =~= before + entry(key@, enc_mode(*v)));
        }
    }
}

/// Reads an entry that holds an optional durability under `key`.
fn get_mode(u: &mut Unpacker, key: &str) -> (r: Option<Option<Durability>>)
    requires
        old(u).wf(),
    ensures
        final(u).wf(),
        r.is_some() == mode_field(old(u).rest(), key@).is_some(),
        r.is_some() ==> mode_field(old(u).rest(), key@) == Some(
            (r.unwrap(), final(u).rest()),
        ),
{
    reveal(mode_field);
    if !u.key(key) {
        return None;
    }
    unpack_mode(u)
}

/// The description of a peer as the values that it carries.
pub struct PeerMetadataView {
    pub id: Seq<char>,
    pub name: Seq<char>,
    pub addr: Seq<char>,
    pub total_memory: u64,
    pub used_memory: u64,
    pub quota: u64,
    pub allowed_quota: u64,
}

impl View for PeerMetadata {
    type V = PeerMetadataView;

    open spec fn view(&self) -> PeerMetadataView {
        PeerMetadataView {
            id: self.id@,
            name: self.name@,
            addr: self.addr@,
            total_memory: self.total_memory,
            used_memory: self.used_memory,
            quota: self.quota,
            allowed_quota: self.allowed_quota,
        }
    }
}

/// The bytes of the description of a peer: a map of its fields, each under its name.
pub open spec fn enc_peer(m: PeerMetadataView) -> Seq<u8> {
    enc_len(Sized::Table, 7)
        + entry("id"@, enc_str(m.id))
        + entry("name"@, enc_str(m.name))
        + entry("addr"@, enc_str(m.addr))
        + entry("total_memory"@, enc_uint(m.total_memory))
        + entry("used_memory"@, enc_uint(m.used_memory))
        + entry("quota"@, enc_uint(m.quota))
        + entry("allowed_quota"@, enc_uint(m.allowed_quota))
}

/// Whether the texts of the description of a peer are short enough to be written.
pub open spec fn peer_fits(m: PeerMetadataView) -> bool {
    text_fits(m.id) && text_fits(m.name) && text_fits(m.addr)
}

/// The description of a peer at the front of `s`, and the rest.
#[verifier::opaque]
pub open spec fn parse_peer(s: Seq<u8>) -> Option<(PeerMetadataView, Seq<u8>)> {
    match parse_len(Sized::Table, s) {
        Some((n, r)) => if n == 7 {
            parse_peer_fields(r)
        } else {
            None
        },
        None => None,
    }
}

/// The fields of the description of a peer at the front of `s`, and the rest.
pub open spec fn parse_peer_fields(s: Seq<u8>) -> Option<(PeerMetadataView, Seq<u8>)> {
    match str_field(s, "id"@) {
        None => None,
        Some((id, r0)) => match str_field(r0, "name"@) {
            None => None,
            Some((name, r1)) => match str_field(r1, "addr"@) {
                None => None,
                Some((addr, r2)) => match uint_field(r2, "total_memory"@) {
                    None => None,
                    Some((total_memory, r3)) => match uint_field(r3, "used_memory"@) {
                        None => None,
                        Some((used_memory, r4)) => match uint_field(r4, "quota"@) {
                            None => None,
                            Some((quota, r5)) => match uint_field(r5, "allowed_quota"@) {
                                None => None,
                                Some((allowed_quota, r6)) => Some(
                                    (
                                        PeerMetadataView {
                                            id,
                                            name,
                                            addr,
                                            total_memory,
                                            used_memory,
                                            quota,
                                            allowed_quota,
                                        },
                                        r6,
                                    ),
                                ),
                            },
                        },
                    },
                },
            },
        },
    }
}

/// The description of a peer, read back, is the same, with what follows it.
#[verifier::rlimit(50)]
pub proof fn lemma_parse_peer(m: PeerMetadataView, rest: Seq<u8>)
    requires
        peer_fits(m),
    ensures
        parse_peer(enc_peer(m) + rest) == Some((m, rest)),
{
    reveal(parse_peer);
    reveal_strlit("id");
    reveal_strlit("name");
    reveal_strlit("addr");
    reveal_strlit("total_memory");
    reveal_strlit("used_memory");
    reveal_strlit("quota");
    reveal_strlit("allowed_quota");
    let t7 = rest;
    let t6 = entry("allowed_quota"@, enc_uint(m.allowed_quota)) + t7;
    let t5 = entry("quota"@, enc_uint(m.quota)) + t6;
    let t4 = entry("used_memory"@, enc_uint(m.used_memory)) + t5;
    let t3 = entry("total_memory"@, enc_uint(m.total_memory)) + t4;
    let t2 = entry("addr"@, enc_str(m.addr)) + t3;
    let t1 = entry("name"@, enc_str(m.name)) + t2;
    let t0 = entry("id"@, enc_str(m.id)) + t1;
    let h0 = enc_len(Sized::Table, 7);
    let h1 = h0 + entry("id"@, enc_str(m.id));
    let h2 = h1 + entry("name"@, enc_str(m.name));
    let h3 = h2 + entry("addr"@, enc_str(m.addr));
    let h4 = h3 + entry("total_memory"@, enc_uint(m.total_memory));
    let h5 = h4 + entry("used_memory"@, enc_uint(m.used_memory));
    let h6 = h5 + entry("quota"@, enc_uint(m.quota));
    let h7 = h6 + entry("allowed_quota"@, enc_uint(m.allowed_quota));
    lemma_join(h6, entry("allowed_quota"@, enc_uint(m.allowed_quota)), t7);
    lemma_join(h5, entry("quota"@, enc_uint(m.quota)), t6);
    lemma_join(h4, entry("used_memory"@, enc_uint(m.used_memory)), t5);
    lemma_join(h3, entry("total_memory"@, enc_uint(m.total_memory)), t4);
    lemma_join(h2, entry("addr"@, enc_str(m.addr)), t3);
    lemma_join(h1, entry("name"@, enc_str(m.name)), t2);
    lemma_join(h0, entry("id"@, enc_str(m.id)), t1);
    assert(enc_peer(m) + rest == h7 + t7);
    lemma_parse_len(Sized::Table, 7, t0);
    lemma_str_field("id"@, m.id, t1);
    lemma_str_field("name"@, m.name, t2);
    lemma_str_field("addr"@, m.addr, t3);
    lemma_uint_field("total_memory"@, m.total_memory, t4);
    lemma_uint_field("used_memory"@, m.used_memory, t5);
    lemma_uint_field("quota"@, m.quota, t6);
    lemma_uint_field("allowed_quota"@, m.allowed_quota, t7);
}

/// Writes the description of a peer.
#[verifier::rlimit(40)]
fn pack_peer(p: &mut Packer, v: &PeerMetadata)
    ensures
        final(p).ok == (old(p).ok && peer_fits(v@)),
        final(p).ok ==> final(p).out@ == old(p).out@ + enc_peer(v@),
{
    proof {
        reveal_strlit("id");
        reveal_strlit("name");
        reveal_strlit("addr");
        reveal_strlit("total_memory");
        reveal_strlit("used_memory");
        reveal_strlit("quota");
        reveal_strlit("allowed_quota");
    }
    let ghost g0 = p.out@;
    p.len(Sized::Table, 7);
    let ghost e0 = enc_len(Sized::Table, 7);
    put_str(p, "id", &v.id);
    let ghost e1 = e0 + entry("id"@, enc_str(v@.id));
    proof {
        if p.ok {
            lemma_join(g0, e0, entry("id"@, enc_str(v@.id)));
        }
    }
    put_str(p, "name", &v.name);
    let ghost e2 = e1 + entry("name"@, enc_str(v@.name));
    proof {
        if p.ok {
            lemma_join(g0, e1, entry("name"@, enc_str(v@.name)));
        }
    }
    put_str(p, "addr", &v.addr);
    let ghost e3 = e2 + entry("addr"@, enc_str(v@.addr));
    proof {
        if p.ok {
            lemma_join(g0, e2, entry("addr"@, enc_str(v@.addr)));
        }
    }
    put_uint(p, "total_memory", &v.total_memory);
    let ghost e4 = e3 + entry("total_memory"@, enc_uint(v@.total_memory));
    proof {
        if p.ok {
            lemma_join(g0, e3, entry("total_memory"@, enc_uint(v@.total_memory)));
        }
    }
    put_uint(p, "used_memory", &v.used_memory);
    let ghost e5 = e4 + entry("used_memory"@, enc_uint(v@.used_memory));
    proof {
        if p.ok {
            lemma_join(g0, e4, entry("used_memory"@, enc_uint(v@.used_memory)));
        }
    }
    put_uint(p, "quota", &v.quota);
    let ghost e6 = e5 + entry("quota"@, enc_uint(v@.quota));
    proof {
        if p.ok {
            lemma_join(g0, e5, entry("quota"@, enc_uint(v@.quota)));
        }
    }
    put_uint(p, "allowed_quota", &v.allowed_quota);
    let ghost e7 = e6 + entry("allowed_quota"@, enc_uint(v@.allowed_quota));
    proof {
        if p.ok {
            lemma_join(g0, e6, entry("allowed_quota"@, enc_uint(v@.allowed_quota)));
        }
    }
}

/// Reads the description of a peer.
#[verifier::rlimit(40)]
fn unpack_peer(u: &mut Unpacker) -> (r: Option<PeerMetadata>)
    requires
        old(u).wf(),
    ensures
        final(u).wf(),
        r.is_some() == parse_peer(old(u).rest()).is_some(),
        r.is_some() ==> parse_peer(old(u).rest()) == Some((r.unwrap()@, final(u).rest())),
{
    reveal(parse_peer);
    match u.len(Sized::Table) {
        Some(n) => if n != 7 {
            return None;
        },
        None => {
            return None;
        },
    }
    let id = match get_str(u, "id") {
        Some(v) => v,
        None => {
            return None;
        },
    };
    let name = match get_str(u, "name") {
        Some(v) => v,
        None => {
            return None;
        },
    };
    let addr = match get_str(u, "addr") {
        Some(v) => v,
        None => {
            return None;
        },
    };
    let total_memory = match get_uint(u, "total_memory") {
        Some(v) => v,
        None => {
            return None;
        },
    };
    let used_memory = match get_uint(u, "used_memory") {
        Some(v) => v,
        None => {
            return None;
        },
    };
    let quota = match get_uint(u, "quota") {
        Some(v) => v,
        None => {
            return None;
        },
    };
    let allowed_quota = match get_uint(u, "allowed_quota") {
        Some(v) => v,
        None => {
            return None;
        },
    };
    Some(PeerMetadata { id, name, addr, total_memory, used_memory, quota, allowed_quota })
}

/// A trusted device as the values that it carries.
pub struct TrustedDeviceView {
    pub public_key: Seq<char>,
    pub name: Seq<char>,
    pub first_seen: u64,
    pub last_approved: u64,
}

impl View for TrustedDevice {
    type V = TrustedDeviceView;

    open spec fn view(&self) -> TrustedDeviceView {
        TrustedDeviceView {
            public_key: self.public_key@,
            name: self.name@,
            first_seen: self.first_seen,
            last_approved: self.last_approved,
        }
    }
}

/// The bytes of a trusted device: a map of its fields, each under its name.
pub open spec fn enc_device(m: TrustedDeviceView) -> Seq<u8> {
    enc_len(Sized::Table, 4)
        + entry("public_key"@, enc_str(m.public_key))
        + entry("name"@, enc_str(m.name))
        + entry("first_seen"@, enc_uint(m.first_seen))
        + entry("last_approved"@, enc_uint(m.last_approved))
}

/// Whether the texts of a trusted device are short enough to be written.
pub open spec fn device_fits(m: TrustedDeviceView) -> bool {
    text_fits(m.public_key) && text_fits(m.name)
}

/// A trusted device at the front of `s`, and the rest.
#[verifier::opaque]
pub open spec fn parse_device(s: Seq<u8>) -> Option<(TrustedDeviceView, Seq<u8>)> {
    match parse_len(Sized::Table, s) {
        Some((n, r)) => if n == 4 {
            parse_device_fields(r)
        } else {
            None
        },
        None => None,
    }
}

/// The fields of a trusted device at the front of `s`, and the rest.
pub open spec fn parse_device_fields(s: Seq<u8>) -> Option<(TrustedDeviceView, Seq<u8>)> {
    match str_field(s, "public_key"@) {
        None => None,
        Some((public_key, r0)) => match str_field(r0, "name"@) {
            None => None,
            Some((name, r1)) => match uint_field(r1, "first_seen"@) {
                None => None,
                Some((first_seen, r2)) => match uint_field(r2, "last_approved"@) {
                    None => None,
                    Some((last_approved, r3)) => Some(
                        (
                            TrustedDeviceView {
                                public_key,
                                name,
                                first_seen,
                                last_approved,
                            },
                            r3,
                        ),
                    ),
                },
            },
        },
    }
}

/// A trusted device, read back, is the same, with what follows it.
#[verifier::rlimit(50)]
pub proof fn lemma_parse_device(m: TrustedDeviceView, rest: Seq<u8>)
    requires
        device_fits(m),
    ensures
        parse_device(enc_device(m) + rest) == Some((m, rest)),
{
    reveal(parse_device);
    reveal_strlit("public_key");
    reveal_strlit("name");
    reveal_strlit("first_seen");
    reveal_strlit("last_approved");
    let t4 = rest;
    let t3 = entry("last_approved"@, enc_uint(m.last_approved)) + t4;
    let t2 = entry("first_seen"@, enc_uint(m.first_seen)) + t3;
    let t1 = entry("name"@, enc_str(m.name)) + t2;
    let t0 = entry("public_key"@, enc_str(m.public_key)) + t1;
    let h0 = enc_len(Sized::Table, 4);
    let h1 = h0 + entry("public_key"@, enc_str(m.public_key));
    let h2 = h1 + entry("name"@, enc_str(m.name));
    let h3 = h2 + entry("first_seen"@, enc_uint(m.first_seen));
    let h4 = h3 + entry("last_approved"@, enc_uint(m.last_approved));
    lemma_join(h3, entry("last_approved"@, enc_uint(m.last_approved)), t4);
    lemma_join(h2, entry("first_seen"@, enc_uint(m.first_seen)), t3);
    lemma_join(h1, entry("name"@, enc_str(m.name)), t2);
    lemma_join(h0, entry("public_key"@, enc_str(m.public_key)), t1);
    assert(enc_device(m) + rest == h4 + t4);
    lemma_parse_len(Sized::Table, 4, t0);
    lemma_str_field("public_key"@, m.public_key, t1);
    lemma_str_field("name"@, m.name, t2);
    lemma_uint_field("first_seen"@, m.first_seen, t3);
    lemma_uint_field("last_approved"@, m.last_approved, t4);
}

/// Writes a trusted device.
#[verifier::rlimit(40)]
fn pack_device(p: &mut Packer, v: &TrustedDevice)
    ensures
        final(p).ok == (old(p).ok && device_fits(v@)),
        final(p).ok ==> final(p).out@ == old(p).out@ + enc_device(v@),
{
    proof {
        reveal_strlit("public_key");
        reveal_strlit("name");
        reveal_strlit("first_seen");
        reveal_strlit("last_approved");
    }
    let ghost g0 = p.out@;
    p.len(Sized::Table, 4);
    let ghost e0 = enc_len(Sized::Table, 4);
    put_str(p, "public_key", &v.public_key);
    let ghost e1 = e0 + entry("public_key"@, enc_str(v@.public_key));
    proof {
        if p.ok {
            lemma_join(g0, e0, entry("public_key"@, enc_str(v@.public_key)));
        }
    }
    put_str(p, "name", &v.name);
    let ghost e2 = e1 + entry("name"@, enc_str(v@.name));
    proof {
        if p.ok {
            lemma_join(g0, e1, entry("name"@, enc_str(v@.name)));
        }
    }
    put_uint(p, "first_seen", &v.first_seen);
    let ghost e3 = e2 + entry("first_seen"@, enc_uint(v@.first_seen));
    proof {
        if p.ok {
            lemma_join(g0, e2, entry("first_seen"@, enc_uint(v@.first_seen)));
        }
    }
    put_uint(p, "last_approved", &v.last_approved);
    let ghost e4 = e3 + entry("last_approved"@, enc_uint(v@.last_approved));
    proof {
        if p.ok {
            lemma_join(g0, e3, entry("last_approved"@, enc_uint(v@.last_approved)));
        }
    }
}

/// Reads a trusted device.
#[verifier::rlimit(40)]
fn unpack_device(u: &mut Unpacker) -> (r: Option<TrustedDevice>)
    requires
        old(u).wf(),
    ensures
        final(u).wf(),
        r.is_some() == parse_device(old(u).rest()).is_some(),
        r.is_some() ==> parse_device(old(u).rest()) == Some((r.unwrap()@, final(u).rest())),
{
    reveal(parse_device);
    match u.len(Sized::Table) {
        Some(n) => if n != 4 {
            return None;
        },
        None => {
            return None;
        },
    }
    let public_key = match get_str(u, "public_key") {
        Some(v) => v,
        None => {
            return None;
        },
    };
    let name = match get_str(u, "name") {
        Some(v) => v,
        None => {
            return None;
        },
    };
    let first_seen = match get_uint(u, "first_seen") {
        Some(v) => v,
        None => {
            return None;
        },
    };
    let last_approved = match get_uint(u, "last_approved") {
        Some(v) => v,
        None => {
            return None;
        },
    };
    Some(TrustedDevice { public_key, name, first_seen, last_approved })
}

/// A request for consent as the values that it carries.
pub struct PendingConsentView {
    pub session_id: Seq<char>,
    pub peer_pubkey: Seq<char>,
    pub peer_name: Seq<char>,
    pub quota: u64,
    pub created_at: u64,
}

impl View for PendingConsent {
    type V = PendingConsentView;

    open spec fn view(&self) -> PendingConsentView {
        PendingConsentView {
            session_id: self.session_id@,
            peer_pubkey: self.peer_pubkey@,
            peer_name: self.peer_name@,
            quota: self.quota,
            created_at: self.created_at,
        }
    }
}

/// The bytes of a request for consent: a map of its fields, each under its name.
pub open spec fn enc_consent(m: PendingConsentView) -> Seq<u8> {
    enc_len(Sized::Table, 5)
        + entry("session_id"@, enc_str(m.session_id))
        + entry("peer_pubkey"@, enc_str(m.peer_pubkey))
        + entry("peer_name"@, enc_str(m.peer_name))
        + entry("quota"@, enc_uint(m.quota))
        + entry("created_at"@, enc_uint(m.created_at))
}

/// Whether the texts of a request for consent are short enough to be written.
pub open spec fn consent_fits(m: PendingConsentView) -> bool {
    text_fits(m.session_id) && text_fits(m.peer_pubkey) && text_fits(m.peer_name)
}

/// A request for consent at the front of `s`, and the rest.
#[verifier::opaque]
pub open spec fn parse_consent(s: Seq<u8>) -> Option<(PendingConsentView, Seq<u8>)> {
    match parse_len(Sized::Table, s) {
        Some((n, r)) => if n == 5 {
            parse_consent_fields(r)
        } else {
            None
        },
        None => None,
    }
}

/// The fields of a request for consent at the front of `s`, and the rest.
pub open spec fn parse_consent_fields(s: Seq<u8>) -> Option<(PendingConsentView, Seq<u8>)> {
    match str_field(s, "session_id"@) {
        None => None,
        Some((session_id, r0)) => match str_field(r0, "peer_pubkey"@) {
            None => None,
            Some((peer_pubkey, r1)) => match str_field(r1, "peer_name"@) {
                None => None,
                Some((peer_name, r2)) => match uint_field(r2, "quota"@) {
                    None => None,
                    Some((quota, r3)) => match uint_field(r3, "created_at"@) {
                        None => None,
                        Some((created_at, r4)) => Some(
                            (
                                PendingConsentView {
                                    session_id,
                                    peer_pubkey,
                                    peer_name,
                                    quota,
                                    created_at,
                                },
                                r4,
                            ),
                        ),
                    },
                },
            },
        },
    }
}

/// A request for consent, read back, is the same, with what follows it.
#[verifier::rlimit(50)]
pub proof fn lemma_parse_consent(m: PendingConsentView, rest: Seq<u8>)
    requires
        consent_fits(m),
    ensures
        parse_consent(enc_consent(m) + rest) == Some((m, rest)),
{
    reveal(parse_consent);
    reveal_strlit("session_id");
    reveal_strlit("peer_pubkey");
    reveal_strlit("peer_name");
    reveal_strlit("quota");
    reveal_strlit("created_at");
    let t5 = rest;
    let t4 = entry("created_at"@, enc_uint(m.created_at)) + t5;
    let t3 = entry("quota"@, enc_uint(m.quota)) + t4;
    let t2 = entry("peer_name"@, enc_str(m.peer_name)) + t3;
    let t1 = entry("peer_pubkey"@, enc_str(m.peer_pubkey)) + t2;
    let t0 = entry("session_id"@, enc_str(m.session_id)) + t1;
    let h0 = enc_len(Sized::Table, 5);
    let h1 = h0 + entry("session_id"@, enc_str(m.session_id));
    let h2 = h1 + entry("peer_pubkey"@, enc_str(m.peer_pubkey));
    let h3 = h2 + entry("peer_name"@, enc_str(m.peer_name));
    let h4 = h3 + entry("quota"@, enc_uint(m.quota));
    let h5 = h4 + entry("created_at"@, enc_uint(m.created_at));
    lemma_join(h4, entry("created_at"@, enc_uint(m.created_at)), t5);
    lemma_join(h3, entry("quota"@, enc_uint(m.quota)), t4);
    lemma_join(h2, entry("peer_name"@, enc_str(m.peer_name)), t3);
    lemma_join(h1, entry("peer_pubkey"@, enc_str(m.peer_pubkey)), t2);
    lemma_join(h0, entry("session_id"@, enc_str(m.session_id)), t1);
    assert(enc_consent(m) + rest == h5 + t5);
    lemma_parse_len(Sized::Table, 5, t0);
    lemma_str_field("session_id"@, m.session_id, t1);
    lemma_str_field("peer_pubkey"@, m.peer_pubkey, t2);
    lemma_str_field("peer_name"@, m.peer_name, t3);
    lemma_uint_field("quota"@, m.quota, t4);
    lemma_uint_field("created_at"@, m.created_at, t5);
}

/// Writes a request for consent.
#[verifier::rlimit(40)]
fn pack_consent(p: &mut Packer, v: &PendingConsent)
    ensures
        final(p).ok == (old(p).ok && consent_fits(v@)),
        final(p).ok ==> final(p).out@ == old(p).out@ + enc_consent(v@),
{
    proof {
        reveal_strlit("session_id");
        reveal_strlit("peer_pubkey");
        reveal_strlit("peer_name");
        reveal_strlit("quota");
        reveal_strlit("created_at");
    }
    let ghost g0 = p.out@;
    p.len(Sized::Table, 5);
    let ghost e0 = enc_len(Sized::Table, 5);
    put_str(p, "session_id", &v.session_id);
    let ghost e1 = e0 + entry("session_id"@, enc_str(v@.session_id));
    proof {
        if p.ok {
            lemma_join(g0, e0, entry("session_id"@, enc_str(v@.session_id)));
        }
    }
    put_str(p, "peer_pubkey", &v.peer_pubkey);
    let ghost e2 = e1 + entry("peer_pubkey"@, enc_str(v@.peer_pubkey));
    proof {
        if p.ok {
            lemma_join(g0, e1, entry("peer_pubkey"@, enc_str(v@.peer_pubkey)));
        }
    }
    put_str(p, "peer_name", &v.peer_name);
    let ghost e3 = e2 + entry("peer_name"@, enc_str(v@.peer_name));
    proof {
        if p.ok {
            lemma_join(g0, e2, entry("peer_name"@, enc_str(v@.peer_name)));
        }
    }
    put_uint(p, "quota", &v.quota);
    let ghost e4 = e3 + entry("quota"@, enc_uint(v@.quota));
    proof {
        if p.ok {
            lemma_join(g0, e3, entry("quota"@, enc_uint(v@.quota)));
        }
    }
    put_uint(p, "created_at", &v.created_at);
    let ghost e5 = e4 + entry("created_at"@, enc_uint(v@.created_at));
    proof {
        if p.ok {
            lemma_join(g0, e4, entry("created_at"@, enc_uint(v@.created_at)));
        }
    }
}

/// Reads a request for consent.
#[verifier::rlimit(40)]
fn unpack_consent(u: &mut Unpacker) -> (r: Option<PendingConsent>)
    requires
        old(u).wf(),
    ensures
        final(u).wf(),
        r.is_some() == parse_consent(old(u).rest()).is_some(),
        r.is_some() ==> parse_consent(old(u).rest()) == Some((r.unwrap()@, final(u).rest())),
{
    reveal(parse_consent);
    match u.len(Sized::Table) {
        Some(n) => if n != 5 {
            return None;
        },
        None => {
            return None;
        },
    }
    let session_id = match get_str(u, "session_id") {
        Some(v) => v,
        None => {
            return None;
        },
    };
    let peer_pubkey = match get_str(u, "peer_pubkey") {
        Some(v) => v,
        None => {
            return None;
        },
    };
    let peer_name = match get_str(u, "peer_name") {
        Some(v) => v,
        None => {
            return None;
        },
    };
    let quota = match get_uint(u, "quota") {
        Some(v) => v,
        None => {
            return None;
        },
    };
    let created_at = match get_uint(u, "created_at") {
        Some(v) => v,
        None => {
            return None;
        },
    };
    Some(PendingConsent { session_id, peer_pubkey, peer_name, quota, created_at })
}

/// The values of a list of texts.
pub open spec fn texts_view(items: Seq<String>) -> Seq<Seq<char>> {
    items.map_values(|m: String| m@)
}

/// The bytes of the entries of a list of texts, one after another.
pub open spec fn enc_texts_entries(items: Seq<Seq<char>>) -> Seq<u8>
    decreases items.len(),
{
    if items.len() == 0 {
        Seq::empty()
    } else {
        enc_texts_entries(items.drop_last()) + enc_str(items.last())
    }
}

/// The bytes of a list of texts: an array of its entries.
pub open spec fn enc_texts(items: Seq<Seq<char>>) -> Seq<u8> {
    enc_len(Sized::Array, items.len() as u32) + enc_texts_entries(items)
}

/// Whether a list of texts and each of its entries are short enough to be written.
pub open spec fn texts_fit(items: Seq<Seq<char>>) -> bool {
    &&& fits(items.len())
    &&& forall|i: int| 0 <= i < items.len() ==> text_fits(#[trigger] items[i])
}

/// The first `n` entries of a list of texts at the front of `s`, and the rest.
pub open spec fn parse_texts_entries(s: Seq<u8>, n: nat) -> Option<
    (Seq<Seq<char>>, Seq<u8>),
>
    decreases n,
{
    if n == 0 {
        Some((Seq::empty(), s))
    } else {
        match parse_texts_entries(s, (n - 1) as nat) {
            Some((before, r)) => match parse_str(r) {
                Some((last, after)) => Some((before.push(last), after)),
                None => None,
            },
            None => None,
        }
    }
}

/// A list of texts at the front of `s`, and the rest.
#[verifier::opaque]
pub open spec fn parse_texts(s: Seq<u8>) -> Option<(Seq<Seq<char>>, Seq<u8>)> {
    match parse_len(Sized::Array, s) {
        Some((n, r)) => parse_texts_entries(r, n as nat),
        None => None,
    }
}

proof fn lemma_parse_texts_entries(items: Seq<Seq<char>>, rest: Seq<u8>)
    requires
        forall|i: int| 0 <= i < items.len() ==> text_fits(#[trigger] items[i]),
    ensures
        parse_texts_entries(enc_texts_entries(items) + rest, items.len()) == Some(
            (items, rest),
        ),
    decreases items.len(),
{
    if items.len() == 0 {
        assert(enc_texts_entries(items) + rest =~= rest);
        assert(items =~= Seq::<Seq<char>>::empty());
    } else {
        let front = items.drop_last();
        let last = items.last();
        let tail = enc_str(last) + rest;
        assert(enc_texts_entries(items) + rest =~= enc_texts_entries(front) + tail);
        assert forall|i: int| 0 <= i < front.len() implies text_fits(#[trigger] front[i]) by {
            assert(front[i] == items[i]);
        }
        lemma_parse_texts_entries(front, tail);
        assert(text_fits(last));
        lemma_parse_text(last, rest);
        assert(front.push(last) =~= items);
    }
}

/// Where fewer entries than `n` can be read, `n` entries cannot.
proof fn lemma_parse_texts_short(s: Seq<u8>, k: nat, n: nat)
    requires
        k <= n,
        parse_texts_entries(s, k).is_none(),
    ensures
        parse_texts_entries(s, n).is_none(),
    decreases n,
{
    if k < n {
        lemma_parse_texts_short(s, k, (n - 1) as nat);
    }
}

/// A list of texts, read back, is the same, with what follows it.
pub proof fn lemma_parse_texts(items: Seq<Seq<char>>, rest: Seq<u8>)
    requires
        texts_fit(items),
    ensures
        parse_texts(enc_texts(items) + rest) == Some((items, rest)),
{
    reveal(parse_texts);
    let body = enc_texts_entries(items) + rest;
    assert(enc_texts(items) + rest =~= enc_len(Sized::Array, items.len() as u32) + body);
    lemma_parse_len(Sized::Array, items.len() as u32, body);
    lemma_parse_texts_entries(items, rest);
}

/// Writes a list of texts.
#[verifier::rlimit(40)]
fn pack_texts(p: &mut Packer, v: &Vec<String>)
    ensures
        final(p).ok == (old(p).ok && texts_fit(texts_view(v@))),
        final(p).ok ==> final(p).out@ == old(p).out@ + enc_texts(texts_view(v@)),
{
    let ghost all = texts_view(v@);
    let ghost start = p.out@;
    p.len(Sized::Array, v.len());
    let ghost head = p.out@;
    let ghost ok1 = p.ok;
    let mut i: usize = 0;
    proof {
        assert(all.take(0) =~= Seq::<Seq<char>>::empty());
        assert(head + enc_texts_entries(all.take(0)) =~= head);
    }
    while i < v.len()
        invariant
            i <= v@.len(),
            all == texts_view(v@),
            all.len() == v@.len(),
            p.ok == (ok1 && forall|j: int| 0 <= j < i ==> text_fits(#[trigger] all[j])),
            p.ok ==> p.out@ == head + enc_texts_entries(all.take(i as int)),
        decreases v@.len() - i,
    {
        let ghost before = p.out@;
        p.str(v[i].as_str());
        proof {
            assert(all[i as int] == v@[i as int]@);
            let next = all.take(i + 1);
            assert(next.drop_last() =~= all.take(i as int));
            assert(next.last() == all[i as int]);
            if p.ok {
                assert(p.out@ =~= head + enc_texts_entries(next));
            }
        }
        i = i + 1;
    }
    proof {
        assert(all.take(v@.len() as int) =~= all);
        if p.ok {
            assert(p.out@ =~= start + enc_texts(all));
        }
    }
}

/// Reads a list of texts.
#[verifier::rlimit(40)]
fn unpack_texts(u: &mut Unpacker) -> (r: Option<Vec<String>>)
    requires
        old(u).wf(),
    ensures
        final(u).wf(),
        r.is_some() == parse_texts(old(u).rest()).is_some(),
        r.is_some() ==> parse_texts(old(u).rest()) == Some(
            (texts_view(r.unwrap()@), final(u).rest()),
        ),
{
    reveal(parse_texts);
    let n = match u.len(Sized::Array) {
        Some(n) => n,
        None => {
            return None;
        },
    };
    let ghost body = u.rest();
    let mut items: Vec<String> = Vec::new();
    let mut i: u32 = 0;
    proof {
        assert(texts_view(items@) =~= Seq::<Seq<char>>::empty());
    }
    while i < n
        invariant
            i <= n,
            u.wf(),
            items@.len() == i,
            parse_len(Sized::Array, old(u).rest()) == Some((n, body)),
            parse_texts_entries(body, i as nat) == Some(
                (texts_view(items@), u.rest()),
            ),
        decreases n - i,
    {
        let ghost done = texts_view(items@);
        let got = u.str();
        let item = match got {
            Some(v) => v,
            None => {
                proof {
                    reveal(parse_texts);
                    assert(parse_texts_entries(body, (i + 1) as nat).is_none());
                    lemma_parse_texts_short(body, (i + 1) as nat, n as nat);
                }
                return None;
            },
        };
        items.push(item);
        proof {
            assert(texts_view(items@) =~= done.push(item@));
        }
        i = i + 1;
    }
    Some(items)
}

/// The values of a list of peers.
pub open spec fn peers_view(items: Seq<PeerMetadata>) -> Seq<PeerMetadataView> {
    items.map_values(|m: PeerMetadata| m@)
}

/// The bytes of the entries of a list of peers, one after another.
pub open spec fn enc_peers_entries(items: Seq<PeerMetadataView>) -> Seq<u8>
    decreases items.len(),
{
    if items.len() == 0 {
        Seq::empty()
    } else {
        enc_peers_entries(items.drop_last()) + enc_peer(items.last())
    }
}

/// The bytes of a list of peers: an array of its entries.
pub open spec fn enc_peers(items: Seq<PeerMetadataView>) -> Seq<u8> {
    enc_len(Sized::Array, items.len() as u32) + enc_peers_entries(items)
}

/// Whether a list of peers and each of its entries are short enough to be written.
pub open spec fn peers_fit(items: Seq<PeerMetadataView>) -> bool {
    &&& fits(items.len())
    &&& forall|i: int| 0 <= i < items.len() ==> peer_fits(#[trigger] items[i])
}

/// The first `n` entries of a list of peers at the front of `s`, and the rest.
pub open spec fn parse_peers_entries(s: Seq<u8>, n: nat) -> Option<
    (Seq<PeerMetadataView>, Seq<u8>),
>
    decreases n,
{
    if n == 0 {
        Some((Seq::empty(), s))
    } else {
        match parse_peers_entries(s, (n - 1) as nat) {
            Some((before, r)) => match parse_peer(r) {
                Some((last, after)) => Some((before.push(last), after)),
                None => None,
            },
            None => None,
        }
    }
}

/// A list of peers at the front of `s`, and the rest.
#[verifier::opaque]
pub open spec fn parse_peers(s: Seq<u8>) -> Option<(Seq<PeerMetadataView>, Seq<u8>)> {
    match parse_len(Sized::Array, s) {
        Some((n, r)) => parse_peers_entries(r, n as nat),
        None => None,
    }
}

proof fn lemma_parse_peers_entries(items: Seq<PeerMetadataView>, rest: Seq<u8>)
    requires
        forall|i: int| 0 <= i < items.len() ==> peer_fits(#[trigger] items[i]),
    ensures
        parse_peers_entries(enc_peers_entries(items) + rest, items.len()) == Some(
            (items, rest),
        ),
    decreases items.len(),
{
    if items.len() == 0 {
        assert(enc_peers_entries(items) + rest =~= rest);
        assert(items =~= Seq::<PeerMetadataView>::empty());
    } else {
        let front = items.drop_last();
        let last = items.last();
        let tail = enc_peer(last) + rest;
        assert(enc_peers_entries(items) + rest =~= enc_peers_entries(front) + tail);
        assert forall|i: int| 0 <= i < front.len() implies peer_fits(#[trigger] front[i]) by {
            assert(front[i] == items[i]);
        }
        lemma_parse_peers_entries(front, tail);
        assert(peer_fits(last));
        lemma_parse_peer(last, rest);
        assert(front.push(last) =~= items);
    }
}

/// Where fewer entries than `n` can be read, `n` entries cannot.
proof fn lemma_parse_peers_short(s: Seq<u8>, k: nat, n: nat)
    requires
        k <= n,
        parse_peers_entries(s, k).is_none(),
    ensures
        parse_peers_entries(s, n).is_none(),
    decreases n,
{
    if k < n {
        lemma_parse_peers_short(s, k, (n - 1) as nat);
    }
}

/// A list of peers, read back, is the same, with what follows it.
pub proof fn lemma_parse_peers(items: Seq<PeerMetadataView>, rest: Seq<u8>)
    requires
        peers_fit(items),
    ensures
        parse_peers(enc_peers(items) + rest) == Some((items, rest)),
{
    reveal(parse_peers);
    let body = enc_peers_entries(items) + rest;
    assert(enc_peers(items) + rest =~= enc_len(Sized::Array, items.len() as u32) + body);
    lemma_parse_len(Sized::Array, items.len() as u32, body);
    lemma_parse_peers_entries(items, rest);
}

/// Writes a list of peers.
#[verifier::rlimit(40)]
fn pack_peers(p: &mut Packer, v: &Vec<PeerMetadata>)
    ensures
        final(p).ok == (old(p).ok && peers_fit(peers_view(v@))),
        final(p).ok ==> final(p).out@ == old(p).out@ + enc_peers(peers_view(v@)),
{
    let ghost all = peers_view(v@);
    let ghost start = p.out@;
    p.len(Sized::Array, v.len());
    let ghost head = p.out@;
    let ghost ok1 = p.ok;
    let mut i: usize = 0;
    proof {
        assert(all.take(0) =~= Seq::<PeerMetadataView>::empty());
        assert(head + enc_peers_entries(all.take(0)) =~= head);
    }
    while i < v.len()
        invariant
            i <= v@.len(),
            all == peers_view(v@),
            all.len() == v@.len(),
            p.ok == (ok1 && forall|j: int| 0 <= j < i ==> peer_fits(#[trigger] all[j])),
            p.ok ==> p.out@ == head + enc_peers_entries(all.take(i as int)),
        decreases v@.len() - i,
    {
        let ghost before = p.out@;
        pack_peer(p, &v[i]);
        proof {
            assert(all[i as int] == v@[i as int]@);
            let next = all.take(i + 1);
            assert(next.drop_last() =~= all.take(i as int));
            assert(next.last() == all[i as int]);
            if p.ok {
                assert(p.out@ =~= head + enc_peers_entries(next));
            }
        }
        i = i + 1;
    }
    proof {
        assert(all.take(v@.len() as int) =~= all);
        if p.ok {
            assert(p.out@ =~= start + enc_peers(all));
        }
    }
}

/// Reads a list of peers.
#[verifier::rlimit(40)]
fn unpack_peers(u: &mut Unpacker) -> (r: Option<Vec<PeerMetadata>>)
    requires
        old(u).wf(),
    ensures
        final(u).wf(),
        r.is_some() == parse_peers(old(u).rest()).is_some(),
        r.is_some() ==> parse_peers(old(u).rest()) == Some(
            (peers_view(r.unwrap()@), final(u).rest()),
        ),
{
    reveal(parse_peers);
    let n = match u.len(Sized::Array) {
        Some(n) => n,
        None => {
            return None;
        },
    };
    let ghost body = u.rest();
    let mut items: Vec<PeerMetadata> = Vec::new();
    let mut i: u32 = 0;
    proof {
        assert(peers_view(items@) =~= Seq::<PeerMetadataView>::empty());
    }
    while i < n
        invariant
            i <= n,
            u.wf(),
            items@.len() == i,
            parse_len(Sized::Array, old(u).rest()) == Some((n, body)),
            parse_peers_entries(body, i as nat) == Some(
                (peers_view(items@), u.rest()),
            ),
        decreases n - i,
    {
        let ghost done = peers_view(items@);
        let got = unpack_peer(u);
        let item = match got {
            Some(v) => v,
            None => {
                proof {
                    reveal(parse_peers);
                    assert(parse_peers_entries(body, (i + 1) as nat).is_none());
                    lemma_parse_peers_short(body, (i + 1) as nat, n as nat);
                }
                return None;
            },
        };
        items.push(item);
        proof {
            assert(peers_view(items@) =~= done.push(item@));
        }
        i = i + 1;
    }
    Some(items)
}

/// The values of a list of trusted devices.
pub open spec fn devices_view(items: Seq<TrustedDevice>) -> Seq<TrustedDeviceView> {
    items.map_values(|m: TrustedDevice| m@)
}

/// The bytes of the entries of a list of trusted devices, one after another.
pub open spec fn enc_devices_entries(items: Seq<TrustedDeviceView>) -> Seq<u8>
    decreases items.len(),
{
    if items.len() == 0 {
        Seq::empty()
    } else {
        enc_devices_entries(items.drop_last()) + enc_device(items.last())
    }
}

/// The bytes of a list of trusted devices: an array of its entries.
pub open spec fn enc_devices(items: Seq<TrustedDeviceView>) -> Seq<u8> {
    enc_len(Sized::Array, items.len() as u32) + enc_devices_entries(items)
}

/// Whether a list of trusted devices and each of its entries are short enough to be written.
pub open spec fn devices_fit(items: Seq<TrustedDeviceView>) -> bool {
    &&& fits(items.len())
    &&& forall|i: int| 0 <= i < items.len() ==> device_fits(#[trigger] items[i])
}

/// The first `n` entries of a list of trusted devices at the front of `s`, and the rest.
pub open spec fn parse_devices_entries(s: Seq<u8>, n: nat) -> Option<
    (Seq<TrustedDeviceView>, Seq<u8>),
>
    decreases n,
{
    if n == 0 {
        Some((Seq::empty(), s))
    } else {
        match parse_devices_entries(s, (n - 1) as nat) {
            Some((before, r)) => match parse_device(r) {
                Some((last, after)) => Some((before.push(last), after)),
                None => None,
            },
            None => None,
        }
    }
}

/// A list of trusted devices at the front of `s`, and the rest.
#[verifier::opaque]
pub open spec fn parse_devices(s: Seq<u8>) -> Option<(Seq<TrustedDeviceView>, Seq<u8>)> {
    match parse_len(Sized::Array, s) {
        Some((n, r)) => parse_devices_entries(r, n as nat),
        None => None,
    }
}

proof fn lemma_parse_devices_entries(items: Seq<TrustedDeviceView>, rest: Seq<u8>)
    requires
        forall|i: int| 0 <= i < items.len() ==> device_fits(#[trigger] items[i]),
    ensures
        parse_devices_entries(enc_devices_entries(items) + rest, items.len()) == Some(
            (items, rest),
        ),
    decreases items.len(),
{
    if items.len() == 0 {
        assert(enc_devices_entries(items) + rest =~= rest);
        assert(items =~= Seq::<TrustedDeviceView>::empty());
    } else {
        let front = items.drop_last();
        let last = items.last();
        let tail = enc_device(last) + rest;
        assert(enc_devices_entries(items) + rest =~= enc_devices_entries(front) + tail);
        assert forall|i: int| 0 <= i < front.len() implies device_fits(#[trigger] front[i]) by {
            assert(front[i] == items[i]);
        }
        lemma_parse_devices_entries(front, tail);
        assert(device_fits(last));
        lemma_parse_device(last, rest);
        assert(front.push(last) =~= items);
    }
}

/// Where fewer entries than `n` can be read, `n` entries cannot.
proof fn lemma_parse_devices_short(s: Seq<u8>, k: nat, n: nat)
    requires
        k <= n,
        parse_devices_entries(s, k).is_none(),
    ensures
        parse_devices_entries(s, n).is_none(),
    decreases n,
{
    if k < n {
        lemma_parse_devices_short(s, k, (n - 1) as nat);
    }
}

/// A list of trusted devices, read back, is the same, with what follows it.
pub proof fn lemma_parse_devices(items: Seq<TrustedDeviceView>, rest: Seq<u8>)
    requires
        devices_fit(items),
    ensures
        parse_devices(enc_devices(items) + rest) == Some((items, rest)),
{
    reveal(parse_devices);
    let body = enc_devices_entries(items) + rest;
    assert(enc_devices(items) + rest =~= enc_len(Sized::Array, items.len() as u32) + body);
    lemma_parse_len(Sized::Array, items.len() as u32, body);
    lemma_parse_devices_entries(items, rest);
}

/// Writes a list of trusted devices.
#[verifier::rlimit(40)]
fn pack_devices(p: &mut Packer, v: &Vec<TrustedDevice>)
    ensures
        final(p).ok == (old(p).ok && devices_fit(devices_view(v@))),
        final(p).ok ==> final(p).out@ == old(p).out@ + enc_devices(devices_view(v@)),
{
    let ghost all = devices_view(v@);
    let ghost start = p.out@;
    p.len(Sized::Array, v.len());
    let ghost head = p.out@;
    let ghost ok1 = p.ok;
    let mut i: usize = 0;
    proof {
        assert(all.take(0) =~= Seq::<TrustedDeviceView>::empty());
        assert(head + enc_devices_entries(all.take(0)) =~= head);
    }
    while i < v.len()
        invariant
            i <= v@.len(),
            all == devices_view(v@),
            all.len() == v@.len(),
            p.ok == (ok1 && forall|j: int| 0 <= j < i ==> device_fits(#[trigger] all[j])),
            p.ok ==> p.out@ == head + enc_devices_entries(all.take(i as int)),
        decreases v@.len() - i,
    {
        let ghost before = p.out@;
        pack_device(p, &v[i]);
        proof {
            assert(all[i as int] == v@[i as int]@);
            let next = all.take(i + 1);
            assert(next.drop_last() =~= all.take(i as int));
            assert(next.last() == all[i as int]);
            if p.ok {
                assert(p.out@ =~= head + enc_devices_entries(next));
            }
        }
        i = i + 1;
    }
    proof {
        assert(all.take(v@.len() as int) =~= all);
        if p.ok {
            assert(p.out@ =~= start + enc_devices(all));
        }
    }
}

/// Reads a list of trusted devices.
#[verifier::rlimit(40)]
fn unpack_devices(u: &mut Unpacker) -> (r: Option<Vec<TrustedDevice>>)
    requires
        old(u).wf(),
    ensures
        final(u).wf(),
        r.is_some() == parse_devices(old(u).rest()).is_some(),
        r.is_some() ==> parse_devices(old(u).rest()) == Some(
            (devices_view(r.unwrap()@), final(u).rest()),
        ),
{
    reveal(parse_devices);
    let n = match u.len(Sized::Array) {
        Some(n) => n,
        None => {
            return None;
        },
    };
    let ghost body = u.rest();
    let mut items: Vec<TrustedDevice> = Vec::new();
    let mut i: u32 = 0;
    proof {
        assert(devices_view(items@) =~= Seq::<TrustedDeviceView>::empty());
    }
    while i < n
        invariant
            i <= n,
            u.wf(),
            items@.len() == i,
            parse_len(Sized::Array, old(u).rest()) == Some((n, body)),
            parse_devices_entries(body, i as nat) == Some(
                (devices_view(items@), u.rest()),
            ),
        decreases n - i,
    {
        let ghost done = devices_view(items@);
        let got = unpack_device(u);
        let item = match got {
            Some(v) => v,
            None => {
                proof {
                    reveal(parse_devices);
                    assert(parse_devices_entries(body, (i + 1) as nat).is_none());
                    lemma_parse_devices_short(body, (i + 1) as nat, n as nat);
                }
                return None;
            },
        };
        items.push(item);
        proof {
            assert(devices_view(items@) =~= done.push(item@));
        }
        i = i + 1;
    }
    Some(items)
}

/// The values of a list of requests for consent.
pub open spec fn consents_view(items: Seq<PendingConsent>) -> Seq<PendingConsentView> {
    items.map_values(|m: PendingConsent| m@)
}

/// The bytes of the entries of a list of requests for consent, one after another.
pub open spec fn enc_consents_entries(items: Seq<PendingConsentView>) -> Seq<u8>
    decreases items.len(),
{
    if items.len() == 0 {
        Seq::empty()
    } else {
        enc_consents_entries(items.drop_last()) + enc_consent(items.last())
    }
}

/// The bytes of a list of requests for consent: an array of its entries.
pub open spec fn enc_consents(items: Seq<PendingConsentView>) -> Seq<u8> {
    enc_len(Sized::Array, items.len() as u32) + enc_consents_entries(items)
}

/// Whether a list of requests for consent and each of its entries are short enough to be written.
pub open spec fn consents_fit(items: Seq<PendingConsentView>) -> bool {
    &&& fits(items.len())
    &&& forall|i: int| 0 <= i < items.len() ==> consent_fits(#[trigger] items[i])
}

/// The first `n` entries of a list of requests for consent at the front of `s`, and the rest.
pub open spec fn parse_consents_entries(s: Seq<u8>, n: nat) -> Option<
    (Seq<PendingConsentView>, Seq<u8>),
>
    decreases n,
{
    if n == 0 {
        Some((Seq::empty(), s))
    } else {
        match parse_consents_entries(s, (n - 1) as nat) {
            Some((before, r)) => match parse_consent(r) {
                Some((last, after)) => Some((before.push(last), after)),
                None => None,
            },
            None => None,
        }
    }
}

/// A list of requests for consent at the front of `s`, and the rest.
#[verifier::opaque]
pub open spec fn parse_consents(s: Seq<u8>) -> Option<(Seq<PendingConsentView>, Seq<u8>)> {
    match parse_len(Sized::Array, s) {
        Some((n, r)) => parse_consents_entries(r, n as nat),
        None => None,
    }
}

proof fn lemma_parse_consents_entries(items: Seq<PendingConsentView>, rest: Seq<u8>)
    requires
        forall|i: int| 0 <= i < items.len() ==> consent_fits(#[trigger] items[i]),
    ensures
        parse_consents_entries(enc_consents_entries(items) + rest, items.len()) == Some(
            (items, rest),
        ),
    decreases items.len(),
{
    if items.len() == 0 {
        assert(enc_consents_entries(items) + rest =~= rest);
        assert(items =~= Seq::<PendingConsentView>::empty());
    } else {
        let front = items.drop_last();
        let last = items.last();
        let tail = enc_consent(last) + rest;
        assert(enc_consents_entries(items) + rest =~= enc_consents_entries(front) + tail);
        assert forall|i: int| 0 <= i < front.len() implies consent_fits(#[trigger] front[i]) by {
            assert(front[i] == items[i]);
        }
        lemma_parse_consents_entries(front, tail);
        assert(consent_fits(last));
        lemma_parse_consent(last, rest);
        assert(front.push(last) =~= items);
    }
}

/// Where fewer entries than `n` can be read, `n` entries cannot.
proof fn lemma_parse_consents_short(s: Seq<u8>, k: nat, n: nat)
    requires
        k <= n,
        parse_consents_entries(s, k).is_none(),
    ensures
        parse_consents_entries(s, n).is_none(),
    decreases n,
{
    if k < n {
        lemma_parse_consents_short(s, k, (n - 1) as nat);
    }
}

/// A list of requests for consent, read back, is the same, with what follows it.
pub proof fn lemma_parse_consents(items: Seq<PendingConsentView>, rest: Seq<u8>)
    requires
        consents_fit(items),
    ensures
        parse_consents(enc_consents(items) + rest) == Some((items, rest)),
{
    reveal(parse_consents);
    let body = enc_consents_entries(items) + rest;
    assert(enc_consents(items) + rest =~= enc_len(Sized::Array, items.len() as u32) + body);
    lemma_parse_len(Sized::Array, items.len() as u32, body);
    lemma_parse_consents_entries(items, rest);
}

/// Writes a list of requests for consent.
#[verifier::rlimit(40)]
fn pack_consents(p: &mut Packer, v: &Vec<PendingConsent>)
    ensures
        final(p).ok == (old(p).ok && consents_fit(consents_view(v@))),
        final(p).ok ==> final(p).out@ == old(p).out@ + enc_consents(consents_view(v@)),
{
    let ghost all = consents_view(v@);
    let ghost start = p.out@;
    p.len(Sized::Array, v.len());
    let ghost head = p.out@;
    let ghost ok1 = p.ok;
    let mut i: usize = 0;
    proof {
        assert(all.take(0) =~= Seq::<PendingConsentView>::empty());
        assert(head + enc_consents_entries(all.take(0)) =~= head);
    }
    while i < v.len()
        invariant
            i <= v@.len(),
            all == consents_view(v@),
            all.len() == v@.len(),
            p.ok == (ok1 && forall|j: int| 0 <= j < i ==> consent_fits(#[trigger] all[j])),
            p.ok ==> p.out@ == head + enc_consents_entries(all.take(i as int)),
        decreases v@.len() - i,
    {
        let ghost before = p.out@;
        pack_consent(p, &v[i]);
        proof {
            assert(all[i as int] == v@[i as int]@);
            let next = all.take(i + 1);
            assert(next.drop_last() =~= all.take(i as int));
            assert(next.last() == all[i as int]);
            if p.ok {
                assert(p.out@ =~= head + enc_consents_entries(next));
            }
        }
        i = i + 1;
    }
    proof {
        assert(all.take(v@.len() as int) =~= all);
        if p.ok {
            assert(p.out@ =~= start + enc_consents(all));
        }
    }
}

/// Reads a list of requests for consent.
#[verifier::rlimit(40)]
fn unpack_consents(u: &mut Unpacker) -> (r: Option<Vec<PendingConsent>>)
    requires
        old(u).wf(),
    ensures
        final(u).wf(),
        r.is_some() == parse_consents(old(u).rest()).is_some(),
        r.is_some() ==> parse_consents(old(u).rest()) == Some(
            (consents_view(r.unwrap()@), final(u).rest()),
        ),
{
    reveal(parse_consents);
    let n = match u.len(Sized::Array) {
        Some(n) => n,
        None => {
            return None;
        },
    };
    let ghost body = u.rest();
    let mut items: Vec<PendingConsent> = Vec::new();
    let mut i: u32 = 0;
    proof {
        assert(consents_view(items@) =~= Seq::<PendingConsentView>::empty());
    }
    while i < n
        invariant
            i <= n,
            u.wf(),
            items@.len() == i,
            parse_len(Sized::Array, old(u).rest()) == Some((n, body)),
            parse_consents_entries(body, i as nat) == Some(
                (consents_view(items@), u.rest()),
            ),
        decreases n - i,
    {
        let ghost done = consents_view(items@);
        let got = unpack_consent(u);
        let item = match got {
            Some(v) => v,
            None => {
                proof {
                    reveal(parse_consents);
                    assert(parse_consents_entries(body, (i + 1) as nat).is_none());
                    lemma_parse_consents_short(body, (i + 1) as nat, n as nat);
                }
                return None;
            },
        };
        items.push(item);
        proof {
            assert(consents_view(items@) =~= done.push(item@));
        }
        i = i + 1;
    }
    Some(items)
}

/// The entry of a map that holds a list of texts under `key`, at the front of `s`,
/// and the rest.
#[verifier::opaque]
pub open spec fn texts_field(s: Seq<u8>, key: Seq<char>) -> Option<(Seq<Seq<char>>, Seq<u8>)> {
    match parse_key(s, key) {
        Some(rest) => parse_texts(rest),
        None => None,
    }
}

/// An entry that holds a list of texts, read back, gives what it holds, with
/// what follows it.
pub proof fn lemma_texts_field(key: Seq<char>, v: Seq<Seq<char>>, rest: Seq<u8>)
    requires
        key.len() <= 1000,
        texts_fit(v),
    ensures
        texts_field(entry(key, enc_texts(v)) + rest, key) == Some((v, rest)),
{
    reveal(texts_field);
    lemma_short_text_fits(key);
    let after = enc_texts(v) + rest;
    assert(entry(key, enc_texts(v)) + rest =~= enc_str(key) + after);
    lemma_parse_str(key, after);
    lemma_parse_texts(v, rest);
}

/// Writes an entry that holds a list of texts under `key`.
fn put_texts(p: &mut Packer, key: &str, v: &Vec<String>)
    requires
        key@.len() <= 1000,
    ensures
        final(p).ok == (old(p).ok && texts_fit(texts_view(v@))),
        final(p).ok ==> final(p).out@ == old(p).out@ + entry(key@, enc_texts(texts_view(v@))),
{
    proof {
        lemma_short_text_fits(key@);
    }
    let ghost before = p.out@;
    p.str(key);
    pack_texts(p, v);
    proof {
        if p.ok {
            assert(p.out@ =~= before + entry(key@, enc_texts(texts_view(v@))));
        }
    }
}

/// Reads an entry that holds a list of texts under `key`.
fn get_texts(u: &mut Unpacker, key: &str) -> (r: Option<Vec<String>>)
    requires
        old(u).wf(),
    ensures
        final(u).wf(),
        r.is_some() == texts_field(old(u).rest(), key@).is_some(),
        r.is_some() ==> texts_field(old(u).rest(), key@) == Some(
            (texts_view(r.unwrap()@), final(u).rest()),
        ),
{
    reveal(texts_field);
    if !u.key(key) {
        return None;
    }
    unpack_texts(u)
}

/// The entry of a map that holds a list of peers under `key`, at the front of `s`,
/// and the rest.
#[verifier::opaque]
pub open spec fn peers_field(s: Seq<u8>, key: Seq<char>) -> Option<
    (Seq<PeerMetadataView>, Seq<u8>),
> {
    match parse_key(s, key) {
        Some(rest) => parse_peers(rest),
        None => None,
    }
}

/// An entry that holds a list of peers, read back, gives what it holds, with
/// what follows it.
pub proof fn lemma_peers_field(key: Seq<char>, v: Seq<PeerMetadataView>, rest: Seq<u8>)
    requires
        key.len() <= 1000,
        peers_fit(v),
    ensures
        peers_field(entry(key, enc_peers(v)) + rest, key) == Some((v, rest)),
{
    reveal(peers_field);
    lemma_short_text_fits(key);
    let after = enc_peers(v) + rest;
    assert(entry(key, enc_peers(v)) + rest =~= enc_str(key) + after);
    lemma_parse_str(key, after);
    lemma_parse_peers(v, rest);
}

/// Writes an entry that holds a list of peers under `key`.
fn put_peers(p: &mut Packer, key: &str, v: &Vec<PeerMetadata>)
    requires
        key@.len() <= 1000,
    ensures
        final(p).ok == (old(p).ok && peers_fit(peers_view(v@))),
        final(p).ok ==> final(p).out@ == old(p).out@ + entry(key@, enc_peers(peers_view(v@))),
{
    proof {
        lemma_short_text_fits(key@);
    }
    let ghost before = p.out@;
    p.str(key);
    pack_peers(p, v);
    proof {
        if p.ok {
            assert(p.out@ =~= before + entry(key@, enc_peers(peers_view(v@))));
        }
    }
}

/// Reads an entry that holds a list of peers under `key`.
fn get_peers(u: &mut Unpacker, key: &str) -> (r: Option<Vec<PeerMetadata>>)
    requires
        old(u).wf(),
    ensures
        final(u).wf(),
        r.is_some() == peers_field(old(u).rest(), key@).is_some(),
        r.is_some() ==> peers_field(old(u).rest(), key@) == Some(
            (peers_view(r.unwrap()@), final(u).rest()),
        ),
{
    reveal(peers_field);
    if !u.key(key) {
        return None;
    }
    unpack_peers(u)
}

/// The entry of a map that holds a list of trusted devices under `key`, at the front of `s`,
/// and the rest.
#[verifier::opaque]
pub open spec fn devices_field(s: Seq<u8>, key: Seq<char>) -> Option<
    (Seq<TrustedDeviceView>, Seq<u8>),
> {
    match parse_key(s, key) {
        Some(rest) => parse_devices(rest),
        None => None,
    }
}

/// An entry that holds a list of trusted devices, read back, gives what it holds, with
/// what follows it.
pub proof fn lemma_devices_field(key: Seq<char>, v: Seq<TrustedDeviceView>, rest: Seq<u8>)
    requires
        key.len() <= 1000,
        devices_fit(v),
    ensures
        devices_field(entry(key, enc_devices(v)) + rest, key) == Some((v, rest)),
{
    reveal(devices_field);
    lemma_short_text_fits(key);
    let after = enc_devices(v) + rest;
    assert(entry(key, enc_devices(v)) + rest =~= enc_str(key) + after);
    lemma_parse_str(key, after);
    lemma_parse_devices(v, rest);
}

/// Writes an entry that holds a list of trusted devices under `key`.
fn put_devices(p: &mut Packer, key: &str, v: &Vec<TrustedDevice>)
    requires
        key@.len() <= 1000,
    ensures
        final(p).ok == (old(p).ok && devices_fit(devices_view(v@))),
        final(p).ok ==> final(p).out@ == old(p).out@ + entry(key@, enc_devices(devices_view(v@))),
{
    proof {
        lemma_short_text_fits(key@);
    }
    let ghost before = p.out@;
    p.str(key);
    pack_devices(p, v);
    proof {
        if p.ok {
            assert(p.out@ =~= before + entry(key@, enc_devices(devices_view(v@))));
        }
    }
}

/// Reads an entry that holds a list of trusted devices under `key`.
fn get_devices(u: &mut Unpacker, key: &str) -> (r: Option<Vec<TrustedDevice>>)
    requires
        old(u).wf(),
    ensures
        final(u).wf(),
        r.is_some() == devices_field(old(u).rest(), key@).is_some(),
        r.is_some() ==> devices_field(old(u).rest(), key@) == Some(
            (devices_view(r.unwrap()@), final(u).rest()),
        ),
{
    reveal(devices_field);
    if !u.key(key) {
        return None;
    }
    unpack_devices(u)
}

/// The entry of a map that holds a list of requests for consent under `key`, at the front of `s`,
/// and the rest.
#[verifier::opaque]
pub open spec fn consents_field(s: Seq<u8>, key: Seq<char>) -> Option<
    (Seq<PendingConsentView>, Seq<u8>),
> {
    match parse_key(s, key) {
        Some(rest) => parse_consents(rest),
        None => None,
    }
}

/// An entry that holds a list of requests for consent, read back, gives what it holds, with
/// what follows it.
pub proof fn lemma_consents_field(key: Seq<char>, v: Seq<PendingConsentView>, rest: Seq<u8>)
    requires
        key.len() <= 1000,
        consents_fit(v),
    ensures
        consents_field(entry(key, enc_consents(v)) + rest, key) == Some((v, rest)),
{
    reveal(consents_field);
    lemma_short_text_fits(key);
    let after = enc_consents(v) + rest;
    assert(entry(key, enc_consents(v)) + rest =~= enc_str(key) + after);
    lemma_parse_str(key, after);
    lemma_parse_consents(v, rest);
}

/// Writes an entry that holds a list of requests for consent under `key`.
fn put_consents(p: &mut Packer, key: &str, v: &Vec<PendingConsent>)
    requires
        key@.len() <= 1000,
    ensures
        final(p).ok == (old(p).ok && consents_fit(consents_view(v@))),
        final(p).ok ==> final(p).out@ == old(p).out@ + entry(key@, enc_consents(consents_view(v@))),
{
    proof {
        lemma_short_text_fits(key@);
    }
    let ghost before = p.out@;
    p.str(key);
    pack_consents(p, v);
    proof {
        if p.ok {
            assert(p.out@ =~= before + entry(key@, enc_consents(consents_view(v@))));
        }
    }
}

/// Reads an entry that holds a list of requests for consent under `key`.
fn get_consents(u: &mut Unpacker, key: &str) -> (r: Option<Vec<PendingConsent>>)
    requires
        old(u).wf(),
    ensures
        final(u).wf(),
        r.is_some() == consents_field(old(u).rest(), key@).is_some(),
        r.is_some() ==> consents_field(old(u).rest(), key@) == Some(
            (consents_view(r.unwrap()@), final(u).rest()),
        ),
{
    reveal(consents_field);
    if !u.key(key) {
        return None;
    }
    unpack_consents(u)
}

/// The entry of a map that holds the description of a peer under `key`, at the front of `s`,
/// and the rest.
#[verifier::opaque]
pub open spec fn peer_field(s: Seq<u8>, key: Seq<char>) -> Option<(PeerMetadataView, Seq<u8>)> {
    match parse_key(s, key) {
        Some(rest) => parse_peer(rest),
        None => None,
    }
}

/// An entry that holds the description of a peer, read back, gives what it holds, with
/// what follows it.
pub proof fn lemma_peer_field(key: Seq<char>, v: PeerMetadataView, rest: Seq<u8>)
    requires
        key.len() <= 1000,
        peer_fits(v),
    ensures
        peer_field(entry(key, enc_peer(v)) + rest, key) == Some((v, rest)),
{
    reveal(peer_field);
    lemma_short_text_fits(key);
    let after = enc_peer(v) + rest;
    assert(entry(key, enc_peer(v)) + rest =~= enc_str(key) + after);
    lemma_parse_str(key, after);
    lemma_parse_peer(v, rest);
}

/// Writes an entry that holds the description of a peer under `key`.
fn put_peer(p: &mut Packer, key: &str, v: &PeerMetadata)
    requires
        key@.len() <= 1000,
    ensures
        final(p).ok == (old(p).ok && peer_fits(v@)),
        final(p).ok ==> final(p).out@ == old(p).out@ + entry(key@, enc_peer(v@)),
{
    proof {
        lemma_short_text_fits(key@);
    }
    let ghost before = p.out@;
    p.str(key);
    pack_peer(p, v);
    proof {
        if p.ok {
            assert(p.out@ =~= before + entry(key@, enc_peer(v@)));
        }
    }
}

/// Reads an entry that holds the description of a peer under `key`.
fn get_peer(u: &mut Unpacker, key: &str) -> (r: Option<PeerMetadata>)
    requires
        old(u).wf(),
    ensures
        final(u).wf(),
        r.is_some() == peer_field(old(u).rest(), key@).is_some(),
        r.is_some() ==> peer_field(old(u).rest(), key@) == Some(
            (r.unwrap()@, final(u).rest()),
        ),
{
    reveal(peer_field);
    if !u.key(key) {
        return None;
    }
    unpack_peer(u)
}

/// A command as the values that it carries.
pub enum CommandView {
    Store { data: Seq<u8>, durability: Option<Durability> },
    StoreRemote { data: Seq<u8>, target: Option<Seq<char>>, durability: Option<Durability> },
    Load { id: u64 },
    Free { id: u64 },
    ListPeers,
    Connect { addr: Seq<char>, quota: Option<u64> },
    UpdatePeerQuota { peer_id: Seq<char>, quota: u64 },
    Disconnect { peer_id: Seq<char> },
    SetKey {
        key: Seq<char>,
        data: Seq<u8>,
        target: Option<Seq<char>>,
        durability: Option<Durability>,
    },
    Get { key: Seq<char>, target: Option<Seq<char>> },
    ListKeys { pattern: Seq<char> },
    Stat,
    PollConnection { addr: Seq<char> },
    StreamStart { size_hint: Option<u64> },
    StreamChunk { stream_id: u64, chunk_seq: u32, data: Seq<u8> },
    StreamFinish { stream_id: u64, target: Option<Seq<char>>, durability: Option<Durability> },
    Flush { target: Option<Seq<char>> },
    TrustList,
    TrustRemove { key_or_name: Seq<char> },
    ConsentList,
    ConsentApprove { session_id: Seq<char>, trust_always: bool },
    ConsentDeny { session_id: Seq<char> },
}

impl View for SdkCommand {
    type V = CommandView;

    open spec fn view(&self) -> CommandView {
        match *self {
            SdkCommand::Store { data, durability } => CommandView::Store {
                data: data@,
                durability: durability,
            },
            SdkCommand::StoreRemote { data, target, durability } => CommandView::StoreRemote {
                data: data@,
                target: opt_text(target),
                durability: durability,
            },
            SdkCommand::Load { id } => CommandView::Load { id: id },
            SdkCommand::Free { id } => CommandView::Free { id: id },
            SdkCommand::ListPeers => CommandView::ListPeers,
            SdkCommand::Connect { addr, quota } => CommandView::Connect {
                addr: addr@,
                quota: quota,
            },
            SdkCommand::UpdatePeerQuota { peer_id, quota } => CommandView::UpdatePeerQuota {
                peer_id: peer_id@,
                quota: quota,
            },
            SdkCommand::Disconnect { peer_id } => CommandView::Disconnect { peer_id: peer_id@ },
            SdkCommand::SetKey { key, data, target, durability } => CommandView::SetKey {
                key: key@,
                data: data@,
                target: opt_text(target),
                durability: durability,
            },
            SdkCommand::Get { key, target } => CommandView::Get {
                key: key@,
                target: opt_text(target),
            },
            SdkCommand::ListKeys { pattern } => CommandView::ListKeys { pattern: pattern@ },
            SdkCommand::Stat => CommandView::Stat,
            SdkCommand::PollConnection { addr } => CommandView::PollConnection { addr: addr@ },
            SdkCommand::StreamStart { size_hint } => CommandView::StreamStart {
                size_hint: size_hint,
            },
            SdkCommand::StreamChunk { stream_id, chunk_seq, data } => CommandView::StreamChunk {
                stream_id: stream_id,
                chunk_seq: chunk_seq,
                data: data@,
            },
            SdkCommand::StreamFinish { stream_id, target, durability } => {
                CommandView::StreamFinish {
                    stream_id: stream_id,
                    target: opt_text(target),
                    durability: durability,
                }
            },
            SdkCommand::Flush { target } => CommandView::Flush { target: opt_text(target) },
            SdkCommand::TrustList => CommandView::TrustList,
            SdkCommand::TrustRemove { key_or_name } => CommandView::TrustRemove {
                key_or_name: key_or_name@,
            },
            SdkCommand::ConsentList => CommandView::ConsentList,
            SdkCommand::ConsentApprove { session_id, trust_always } => CommandView::ConsentApprove {
                session_id: session_id@,
                trust_always: trust_always,
            },
            SdkCommand::ConsentDeny { session_id } => CommandView::ConsentDeny {
                session_id: session_id@,
            },
        }
    }
}

/// An answer as the values that it carries.
pub enum ResponseView {
    Stored { id: u64 },
    Loaded { data: Seq<u8> },
    Success,
    List { items: Seq<Seq<char>> },
    PeerList { peers: Seq<PeerMetadataView> },
    PeerConnected { metadata: PeerMetadataView },
    Error { msg: Seq<char> },
    Status { blocks: usize, peers: usize, memory_usage: usize },
    StreamStarted { stream_id: u64 },
    FlushSuccess,
    TrustedList { items: Seq<TrustedDeviceView> },
    ConsentList { items: Seq<PendingConsentView> },
    ConnectionStatus { state: Seq<char>, msg: Option<Seq<char>> },
}

impl View for SdkResponse {
    type V = ResponseView;

    open spec fn view(&self) -> ResponseView {
        match *self {
            SdkResponse::Stored { id } => ResponseView::Stored { id: id },
            SdkResponse::Loaded { data } => ResponseView::Loaded { data: data@ },
            SdkResponse::Success => ResponseView::Success,
            SdkResponse::List { items } => ResponseView::List { items: texts_view(items@) },
            SdkResponse::PeerList { peers } => ResponseView::PeerList {
                peers: peers_view(peers@),
            },
            SdkResponse::PeerConnected { metadata } => ResponseView::PeerConnected {
                metadata: metadata@,
            },
            SdkResponse::Error { msg } => ResponseView::Error { msg: msg@ },
            SdkResponse::Status { blocks, peers, memory_usage } => ResponseView::Status {
                blocks: blocks,
                peers: peers,
                memory_usage: memory_usage,
            },
            SdkResponse::StreamStarted { stream_id } => ResponseView::StreamStarted {
                stream_id: stream_id,
            },
            SdkResponse::FlushSuccess => ResponseView::FlushSuccess,
            SdkResponse::TrustedList { items } => ResponseView::TrustedList {
                items: devices_view(items@),
            },
            SdkResponse::ConsentList { items } => ResponseView::ConsentList {
                items: consents_view(items@),
            },
            SdkResponse::ConnectionStatus { state, msg } => ResponseView::ConnectionStatus {
                state: state@,
                msg: opt_text(msg),
            },
        }
    }
}

/// The bytes of a command: a map that starts with the name of the
/// message under `cmd` and goes on with its fields, each under its name.
pub open spec fn enc_command(m: CommandView) -> Seq<u8> {
    match m {
        CommandView::Store { data, durability } => {
            enc_len(Sized::Table, 3)
                + entry("cmd"@, enc_str("Store"@))
                + entry("data"@, enc_bin(data))
                + entry("durability"@, enc_mode(durability))
        },
        CommandView::StoreRemote { data, target, durability } => {
            enc_len(Sized::Table, 4)
                + entry("cmd"@, enc_str("StoreRemote"@))
                + entry("data"@, enc_bin(data))
                + entry("target"@, enc_opt_str(target))
                + entry("durability"@, enc_mode(durability))
        },
        CommandView::Load { id } => {
            enc_len(Sized::Table, 2)
                + entry("cmd"@, enc_str("Load"@))
                + entry("id"@, enc_id(id))
        },
        CommandView::Free { id } => {
            enc_len(Sized::Table, 2)
                + entry("cmd"@, enc_str("Free"@))
                + entry("id"@, enc_id(id))
        },
        CommandView::ListPeers => {
            enc_len(Sized::Table, 1)
                + entry("cmd"@, enc_str("ListPeers"@))
        },
        CommandView::Connect { addr, quota } => {
            enc_len(Sized::Table, 3)
                + entry("cmd"@, enc_str("Connect"@))
                + entry("addr"@, enc_str(addr))
                + entry("quota"@, enc_opt_uint(quota))
        },
        CommandView::UpdatePeerQuota { peer_id, quota } => {
            enc_len(Sized::Table, 3)
                + entry("cmd"@, enc_str("UpdatePeerQuota"@))
                + entry("peer_id"@, enc_str(peer_id))
                + entry("quota"@, enc_uint(quota))
        },
        CommandView::Disconnect { peer_id } => {
            enc_len(Sized::Table, 2)
                + entry("cmd"@, enc_str("Disconnect"@))
                + entry("peer_id"@, enc_str(peer_id))
        },
        CommandView::SetKey { key, data, target, durability } => {
            enc_len(Sized::Table, 5)
                + entry("cmd"@, enc_str("Set"@))
                + entry("key"@, enc_str(key))
                + entry("data"@, enc_bin(data))
                + entry("target"@, enc_opt_str(target))
                + entry("durability"@, enc_mode(durability))
        },
        CommandView::Get { key, target } => {
            enc_len(Sized::Table, 3)
                + entry("cmd"@, enc_str("Get"@))
                + entry("key"@, enc_str(key))
                + entry("target"@, enc_opt_str(target))
        },
        CommandView::ListKeys { pattern } => {
            enc_len(Sized::Table, 2)
                + entry("cmd"@, enc_str("ListKeys"@))
                + entry("pattern"@, enc_str(pattern))
        },
        CommandView::Stat => {
            enc_len(Sized::Table, 1)
                + entry("cmd"@, enc_str("Stat"@))
        },
        CommandView::PollConnection { addr } => {
            enc_len(Sized::Table, 2)
                + entry("cmd"@, enc_str("PollConnection"@))
                + entry("addr"@, enc_str(addr))
        },
        CommandView::StreamStart { size_hint } => {
            enc_len(Sized::Table, 2)
                + entry("cmd"@, enc_str("StreamStart"@))
                + entry("size_hint"@, enc_opt_uint(size_hint))
        },
        CommandView::StreamChunk { stream_id, chunk_seq, data } => {
            enc_len(Sized::Table, 4)
                + entry("cmd"@, enc_str("StreamChunk"@))
                + entry("stream_id"@, enc_uint(stream_id))
                + entry("chunk_seq"@, enc_u32(chunk_seq))
                + entry("data"@, enc_bin(data))
        },
        CommandView::StreamFinish { stream_id, target, durability } => {
            enc_len(Sized::Table, 4)
                + entry("cmd"@, enc_str("StreamFinish"@))
                + entry("stream_id"@, enc_uint(stream_id))
                + entry("target"@, enc_opt_str(target))
                + entry("durability"@, enc_mode(durability))
        },
        CommandView::Flush { target } => {
            enc_len(Sized::Table, 2)
                + entry("cmd"@, enc_str("Flush"@))
                + entry("target"@, enc_opt_str(target))
        },
        CommandView::TrustList => {
            enc_len(Sized::Table, 1)
                + entry("cmd"@, enc_str("TrustList"@))
        },
        CommandView::TrustRemove { key_or_name } => {
            enc_len(Sized::Table, 2)
                + entry("cmd"@, enc_str("TrustRemove"@))
                + entry("key_or_name"@, enc_str(key_or_name))
        },
        CommandView::ConsentList => {
            enc_len(Sized::Table, 1)
                + entry("cmd"@, enc_str("ConsentList"@))
        },
        CommandView::ConsentApprove { session_id, trust_always } => {
            enc_len(Sized::Table, 3)
                + entry("cmd"@, enc_str("ConsentApprove"@))
                + entry("session_id"@, enc_str(session_id))
                + entry("trust_always"@, enc_bool(trust_always))
        },
        CommandView::ConsentDeny { session_id } => {
            enc_len(Sized::Table, 2)
                + entry("cmd"@, enc_str("ConsentDeny"@))
                + entry("session_id"@, enc_str(session_id))
        },
    }
}

/// Whether the texts, byte strings and lists of a command are short
/// enough to be written.
pub open spec fn command_fits(m: CommandView) -> bool {
    match m {
        CommandView::Store { data, .. } => bin_fits(data),
        CommandView::StoreRemote { data, target, .. } => bin_fits(data) && opt_text_fits(target),
        CommandView::Connect { addr, .. } => text_fits(addr),
        CommandView::UpdatePeerQuota { peer_id, .. } => text_fits(peer_id),
        CommandView::Disconnect { peer_id } => text_fits(peer_id),
        CommandView::SetKey { key, data, target, .. } => {
            &&& text_fits(key)
            &&& bin_fits(data)
            &&& opt_text_fits(target)
        },
        CommandView::Get { key, target } => text_fits(key) && opt_text_fits(target),
        CommandView::ListKeys { pattern } => text_fits(pattern),
        CommandView::PollConnection { addr } => text_fits(addr),
        CommandView::StreamChunk { data, .. } => bin_fits(data),
        CommandView::StreamFinish { target, .. } => opt_text_fits(target),
        CommandView::Flush { target } => opt_text_fits(target),
        CommandView::TrustRemove { key_or_name } => text_fits(key_or_name),
        CommandView::ConsentApprove { session_id, .. } => text_fits(session_id),
        CommandView::ConsentDeny { session_id } => text_fits(session_id),
        _ => true,
    }
}

/// The fields of `Store`.
#[verifier::opaque]
pub open spec fn dec_command_store(s: Seq<u8>) -> Option<CommandView> {
    match bin_field(s, "data"@) {
        None => None,
        Some((data, r0)) => match mode_field(r0, "durability"@) {
            None => None,
            Some((durability, r1)) => if r1.len() == 0 {
                Some(CommandView::Store { data, durability })
            } else {
                None
            },
        },
    }
}

/// The fields of `StoreRemote`.
#[verifier::opaque]
pub open spec fn dec_command_store_remote(s: Seq<u8>) -> Option<CommandView> {
    match bin_field(s, "data"@) {
        None => None,
        Some((data, r0)) => match opt_str_field(r0, "target"@) {
            None => None,
            Some((target, r1)) => match mode_field(r1, "durability"@) {
                None => None,
                Some((durability, r2)) => if r2.len() == 0 {
                    Some(CommandView::StoreRemote { data, target, durability })
                } else {
                    None
                },
            },
        },
    }
}

/// The fields of `Load`.
#[verifier::opaque]
pub open spec fn dec_command_load(s: Seq<u8>) -> Option<CommandView> {
    match id_field(s, "id"@) {
        None => None,
        Some((id, r0)) => if r0.len() == 0 {
            Some(CommandView::Load { id })
        } else {
            None
        },
    }
}

/// The fields of `Free`.
#[verifier::opaque]
pub open spec fn dec_command_free(s: Seq<u8>) -> Option<CommandView> {
    match id_field(s, "id"@) {
        None => None,
        Some((id, r0)) => if r0.len() == 0 {
            Some(CommandView::Free { id })
        } else {
            None
        },
    }
}

/// The fields of `Connect`.
#[verifier::opaque]
pub open spec fn dec_command_connect(s: Seq<u8>) -> Option<CommandView> {
    match str_field(s, "addr"@) {
        None => None,
        Some((addr, r0)) => match opt_uint_field(r0, "quota"@) {
            None => None,
            Some((quota, r1)) => if r1.len() == 0 {
                Some(CommandView::Connect { addr, quota })
            } else {
                None
            },
        },
    }
}

/// The fields of `UpdatePeerQuota`.
#[verifier::opaque]
pub open spec fn dec_command_update_peer_quota(s: Seq<u8>) -> Option<CommandView> {
    match str_field(s, "peer_id"@) {
        None => None,
        Some((peer_id, r0)) => match uint_field(r0, "quota"@) {
            None => None,
            Some((quota, r1)) => if r1.len() == 0 {
                Some(CommandView::UpdatePeerQuota { peer_id, quota })
            } else {
                None
            },
        },
    }
}

/// The fields of `Disconnect`.
#[verifier::opaque]
pub open spec fn dec_command_disconnect(s: Seq<u8>) -> Option<CommandView> {
    match str_field(s, "peer_id"@) {
        None => None,
        Some((peer_id, r0)) => if r0.len() == 0 {
            Some(CommandView::Disconnect { peer_id })
        } else {
            None
        },
    }
}

/// The fields of `Set`.
#[verifier::opaque]
pub open spec fn dec_command_set_key(s: Seq<u8>) -> Option<CommandView> {
    match str_field(s, "key"@) {
        None => None,
        Some((key, r0)) => match bin_field(r0, "data"@) {
            None => None,
            Some((data, r1)) => match opt_str_field(r1, "target"@) {
                None => None,
                Some((target, r2)) => match mode_field(r2, "durability"@) {
                    None => None,
                    Some((durability, r3)) => if r3.len() == 0 {
                        Some(CommandView::SetKey { key, data, target, durability })
                    } else {
                        None
                    },
                },
            },
        },
    }
}

/// The fields of `Get`.
#[verifier::opaque]
pub open spec fn dec_command_get(s: Seq<u8>) -> Option<CommandView> {
    match str_field(s, "key"@) {
        None => None,
        Some((key, r0)) => match opt_str_field(r0, "target"@) {
            None => None,
            Some((target, r1)) => if r1.len() == 0 {
                Some(CommandView::Get { key, target })
            } else {
                None
            },
        },
    }
}

/// The fields of `ListKeys`.
#[verifier::opaque]
pub open spec fn dec_command_list_keys(s: Seq<u8>) -> Option<CommandView> {
    match str_field(s, "pattern"@) {
        None => None,
        Some((pattern, r0)) => if r0.len() == 0 {
            Some(CommandView::ListKeys { pattern })
        } else {
            None
        },
    }
}

/// The fields of `PollConnection`.
#[verifier::opaque]
pub open spec fn dec_command_poll_connection(s: Seq<u8>) -> Option<CommandView> {
    match str_field(s, "addr"@) {
        None => None,
        Some((addr, r0)) => if r0.len() == 0 {
            Some(CommandView::PollConnection { addr })
        } else {
            None
        },
    }
}

/// The fields of `StreamStart`.
#[verifier::opaque]
pub open spec fn dec_command_stream_start(s: Seq<u8>) -> Option<CommandView> {
    match opt_uint_field(s, "size_hint"@) {
        None => None,
        Some((size_hint, r0)) => if r0.len() == 0 {
            Some(CommandView::StreamStart { size_hint })
        } else {
            None
        },
    }
}

/// The fields of `StreamChunk`.
#[verifier::opaque]
pub open spec fn dec_command_stream_chunk(s: Seq<u8>) -> Option<CommandView> {
    match uint_field(s, "stream_id"@) {
        None => None,
        Some((stream_id, r0)) => match u32_field(r0, "chunk_seq"@) {
            None => None,
            Some((chunk_seq, r1)) => match bin_field(r1, "data"@) {
                None => None,
                Some((data, r2)) => if r2.len() == 0 {
                    Some(CommandView::StreamChunk { stream_id, chunk_seq, data })
                } else {
                    None
                },
            },
        },
    }
}

/// The fields of `StreamFinish`.
#[verifier::opaque]
pub open spec fn dec_command_stream_finish(s: Seq<u8>) -> Option<CommandView> {
    match uint_field(s, "stream_id"@) {
        None => None,
        Some((stream_id, r0)) => match opt_str_field(r0, "target"@) {
            None => None,
            Some((target, r1)) => match mode_field(r1, "durability"@) {
                None => None,
                Some((durability, r2)) => if r2.len() == 0 {
                    Some(CommandView::StreamFinish { stream_id, target, durability })
                } else {
                    None
                },
            },
        },
    }
}

/// The fields of `Flush`.
#[verifier::opaque]
pub open spec fn dec_command_flush(s: Seq<u8>) -> Option<CommandView> {
    match opt_str_field(s, "target"@) {
        None => None,
        Some((target, r0)) => if r0.len() == 0 {
            Some(CommandView::Flush { target })
        } else {
            None
        },
    }
}

/// The fields of `TrustRemove`.
#[verifier::opaque]
pub open spec fn dec_command_trust_remove(s: Seq<u8>) -> Option<CommandView> {
    match str_field(s, "key_or_name"@) {
        None => None,
        Some((key_or_name, r0)) => if r0.len() == 0 {
            Some(CommandView::TrustRemove { key_or_name })
        } else {
            None
        },
    }
}

/// The fields of `ConsentApprove`.
#[verifier::opaque]
pub open spec fn dec_command_consent_approve(s: Seq<u8>) -> Option<CommandView> {
    match str_field(s, "session_id"@) {
        None => None,
        Some((session_id, r0)) => match bool_field(r0, "trust_always"@) {
            None => None,
            Some((trust_always, r1)) => if r1.len() == 0 {
                Some(CommandView::ConsentApprove { session_id, trust_always })
            } else {
                None
            },
        },
    }
}

/// The fields of `ConsentDeny`.
#[verifier::opaque]
pub open spec fn dec_command_consent_deny(s: Seq<u8>) -> Option<CommandView> {
    match str_field(s, "session_id"@) {
        None => None,
        Some((session_id, r0)) => if r0.len() == 0 {
            Some(CommandView::ConsentDeny { session_id })
        } else {
            None
        },
    }
}

/// The command with this name and this many entries whose fields `s` holds.
pub open spec fn dec_command_named(name: Seq<char>, n: u32, s: Seq<u8>) -> Option<CommandView> {
    if name == "Store"@ {
        if n == 3 {
            dec_command_store(s)
        } else {
            None
        }
    } else if name == "StoreRemote"@ {
        if n == 4 {
            dec_command_store_remote(s)
        } else {
            None
        }
    } else if name == "Load"@ {
        if n == 2 {
            dec_command_load(s)
        } else {
            None
        }
    } else if name == "Free"@ {
        if n == 2 {
            dec_command_free(s)
        } else {
            None
        }
    } else if name == "ListPeers"@ {
        if n == 1 && s.len() == 0 {
            Some(CommandView::ListPeers)
        } else {
            None
        }
    } else if name == "Connect"@ {
        if n == 3 {
            dec_command_connect(s)
        } else {
            None
        }
    } else if name == "UpdatePeerQuota"@ {
        if n == 3 {
            dec_command_update_peer_quota(s)
        } else {
            None
        }
    } else if name == "Disconnect"@ {
        if n == 2 {
            dec_command_disconnect(s)
        } else {
            None
        }
    } else if name == "Set"@ {
        if n == 5 {
            dec_command_set_key(s)
        } else {
            None
        }
    } else if name == "Get"@ {
        if n == 3 {
            dec_command_get(s)
        } else {
            None
        }
    } else if name == "ListKeys"@ {
        if n == 2 {
            dec_command_list_keys(s)
        } else {
            None
        }
    } else if name == "Stat"@ {
        if n == 1 && s.len() == 0 {
            Some(CommandView::Stat)
        } else {
            None
        }
    } else if name == "PollConnection"@ {
        if n == 2 {
            dec_command_poll_connection(s)
        } else {
            None
        }
    } else if name == "StreamStart"@ {
        if n == 2 {
            dec_command_stream_start(s)
        } else {
            None
        }
    } else if name == "StreamChunk"@ {
        if n == 4 {
            dec_command_stream_chunk(s)
        } else {
            None
        }
    } else if name == "StreamFinish"@ {
        if n == 4 {
            dec_command_stream_finish(s)
        } else {
            None
        }
    } else if name == "Flush"@ {
        if n == 2 {
            dec_command_flush(s)
        } else {
            None
        }
    } else if name == "TrustList"@ {
        if n == 1 && s.len() == 0 {
            Some(CommandView::TrustList)
        } else {
            None
        }
    } else if name == "TrustRemove"@ {
        if n == 2 {
            dec_command_trust_remove(s)
        } else {
            None
        }
    } else if name == "ConsentList"@ {
        if n == 1 && s.len() == 0 {
            Some(CommandView::ConsentList)
        } else {
            None
        }
    } else if name == "ConsentApprove"@ {
        if n == 3 {
            dec_command_consent_approve(s)
        } else {
            None
        }
    } else if name == "ConsentDeny"@ {
        if n == 2 {
            dec_command_consent_deny(s)
        } else {
            None
        }
    } else {
        None
    }
}

/// The command that a byte string holds.
pub open spec fn dec_command(s: Seq<u8>) -> Option<CommandView> {
    match parse_len(Sized::Table, s) {
        Some((n, r0)) => match str_field(r0, "cmd"@) {
            Some((name, r1)) => dec_command_named(name, n, r1),
            None => None,
        },
        None => None,
    }
}

proof fn lemma_command_store(m: CommandView)
    requires
        m is Store,
        command_fits(m),
    ensures
        dec_command(enc_command(m)) == Some(m),
{
    reveal(dec_command_store);
    reveal_strlit("cmd");
    reveal_strlit("Store");
    reveal_strlit("data");
    reveal_strlit("durability");
    lemma_short_text_fits("Store"@);
    let data = m->Store_data;
    let durability = m->Store_durability;
    let t2 = Seq::<u8>::empty();
    let t1 = entry("durability"@, enc_mode(durability)) + t2;
    let t0 = entry("data"@, enc_bin(data)) + t1;
    let tagged = entry("cmd"@, enc_str("Store"@)) + t0;
    let h = enc_len(Sized::Table, 3);
    let h0 = h + entry("cmd"@, enc_str("Store"@));
    let h1 = h0 + entry("data"@, enc_bin(data));
    let h2 = h1 + entry("durability"@, enc_mode(durability));
    assert(h2 + t2 =~= h2);
    lemma_join(h1, entry("durability"@, enc_mode(durability)), t2);
    lemma_join(h0, entry("data"@, enc_bin(data)), t1);
    lemma_join(h, entry("cmd"@, enc_str("Store"@)), t0);
    assert(enc_command(m) == h2);
    lemma_parse_len(Sized::Table, 3, tagged);
    lemma_str_field("cmd"@, "Store"@, t0);
    lemma_bin_field("data"@, data, t1);
    lemma_mode_field("durability"@, durability, t2);
}

#[verifier::rlimit(50)]
proof fn lemma_command_store_remote(m: CommandView)
    requires
        m is StoreRemote,
        command_fits(m),
    ensures
        dec_command(enc_command(m)) == Some(m),
{
    reveal(dec_command_store_remote);
    reveal_strlit("cmd");
    reveal_strlit("StoreRemote");
    reveal_strlit("data");
    reveal_strlit("target");
    reveal_strlit("durability");
    reveal_strlit("Store");
    lemma_short_text_fits("StoreRemote"@);
    assert("StoreRemote"@.len() != "Store"@.len());
    let data = m->StoreRemote_data;
    let target = m->StoreRemote_target;
    let durability = m->StoreRemote_durability;
    let t3 = Seq::<u8>::empty();
    let t2 = entry("durability"@, enc_mode(durability)) + t3;
    let t1 = entry("target"@, enc_opt_str(target)) + t2;
    let t0 = entry("data"@, enc_bin(data)) + t1;
    let tagged = entry("cmd"@, enc_str("StoreRemote"@)) + t0;
    let h = enc_len(Sized::Table, 4);
    let h0 = h + entry("cmd"@, enc_str("StoreRemote"@));
    let h1 = h0 + entry("data"@, enc_bin(data));
    let h2 = h1 + entry("target"@, enc_opt_str(target));
    let h3 = h2 + entry("durability"@, enc_mode(durability));
    assert(h3 + t3 =~= h3);
    lemma_join(h2, entry("durability"@, enc_mode(durability)), t3);
    lemma_join(h1, entry("target"@, enc_opt_str(target)), t2);
    lemma_join(h0, entry("data"@, enc_bin(data)), t1);
    lemma_join(h, entry("cmd"@, enc_str("StoreRemote"@)), t0);
    assert(enc_command(m) == h3);
    lemma_parse_len(Sized::Table, 4, tagged);
    lemma_str_field("cmd"@, "StoreRemote"@, t0);
    lemma_bin_field("data"@, data, t1);
    lemma_opt_str_field("target"@, target, t2);
    lemma_mode_field("durability"@, durability, t3);
}

proof fn lemma_command_load(m: CommandView)
    requires
        m is Load,
        command_fits(m),
    ensures
        dec_command(enc_command(m)) == Some(m),
{
    reveal(dec_command_load);
    reveal_strlit("cmd");
    reveal_strlit("Load");
    reveal_strlit("id");
    reveal_strlit("Store");
    reveal_strlit("StoreRemote");
    lemma_short_text_fits("Load"@);
    assert("Load"@.len() != "Store"@.len());
    assert("Load"@.len() != "StoreRemote"@.len());
    let id = m->Load_id;
    let t1 = Seq::<u8>::empty();
    let t0 = entry("id"@, enc_id(id)) + t1;
    let tagged = entry("cmd"@, enc_str("Load"@)) + t0;
    let h = enc_len(Sized::Table, 2);
    let h0 = h + entry("cmd"@, enc_str("Load"@));
    let h1 = h0 + entry("id"@, enc_id(id));
    assert(h1 + t1 =~= h1);
    lemma_join(h0, entry("id"@, enc_id(id)), t1);
    lemma_join(h, entry("cmd"@, enc_str("Load"@)), t0);
    assert(enc_command(m) == h1);
    lemma_parse_len(Sized::Table, 2, tagged);
    lemma_str_field("cmd"@, "Load"@, t0);
    lemma_id_field("id"@, id, t1);
}

proof fn lemma_command_free(m: CommandView)
    requires
        m is Free,
        command_fits(m),
    ensures
        dec_command(enc_command(m)) == Some(m),
{
    reveal(dec_command_free);
    reveal_strlit("cmd");
    reveal_strlit("Free");
    reveal_strlit("id");
    reveal_strlit("Store");
    reveal_strlit("StoreRemote");
    reveal_strlit("Load");
    lemma_short_text_fits("Free"@);
    assert("Free"@.len() != "Store"@.len());
    assert("Free"@.len() != "StoreRemote"@.len());
    assert("Free"@[0] != "Load"@[0]);
    let id = m->Free_id;
    let t1 = Seq::<u8>::empty();
    let t0 = entry("id"@, enc_id(id)) + t1;
    let tagged = entry("cmd"@, enc_str("Free"@)) + t0;
    let h = enc_len(Sized::Table, 2);
    let h0 = h + entry("cmd"@, enc_str("Free"@));
    let h1 = h0 + entry("id"@, enc_id(id));
    assert(h1 + t1 =~= h1);
    lemma_join(h0, entry("id"@, enc_id(id)), t1);
    lemma_join(h, entry("cmd"@, enc_str("Free"@)), t0);
    assert(enc_command(m) == h1);
    lemma_parse_len(Sized::Table, 2, tagged);
    lemma_str_field("cmd"@, "Free"@, t0);
    lemma_id_field("id"@, id, t1);
}

proof fn lemma_command_list_peers(m: CommandView)
    requires
        m is ListPeers,
        command_fits(m),
    ensures
        dec_command(enc_command(m)) == Some(m),
{
    reveal_strlit("cmd");
    reveal_strlit("ListPeers");
    reveal_strlit("Store");
    reveal_strlit("StoreRemote");
    reveal_strlit("Load");
    reveal_strlit("Free");
    lemma_short_text_fits("ListPeers"@);
    assert("ListPeers"@.len() != "Store"@.len());
    assert("ListPeers"@.len() != "StoreRemote"@.len());
    assert("ListPeers"@.len() != "Load"@.len());
    assert("ListPeers"@.len() != "Free"@.len());
    let t0 = Seq::<u8>::empty();
    let tagged = entry("cmd"@, enc_str("ListPeers"@)) + t0;
    let h = enc_len(Sized::Table, 1);
    let h0 = h + entry("cmd"@, enc_str("ListPeers"@));
    assert(h0 + t0 =~= h0);
    lemma_join(h, entry("cmd"@, enc_str("ListPeers"@)), t0);
    assert(enc_command(m) == h0);
    lemma_parse_len(Sized::Table, 1, tagged);
    lemma_str_field("cmd"@, "ListPeers"@, t0);
}

proof fn lemma_command_connect(m: CommandView)
    requires
        m is Connect,
        command_fits(m),
    ensures
        dec_command(enc_command(m)) == Some(m),
{
    reveal(dec_command_connect);
    reveal_strlit("cmd");
    reveal_strlit("Connect");
    reveal_strlit("addr");
    reveal_strlit("quota");
    reveal_strlit("Store");
    reveal_strlit("StoreRemote");
    reveal_strlit("Load");
    reveal_strlit("Free");
    reveal_strlit("ListPeers");
    lemma_short_text_fits("Connect"@);
    assert("Connect"@.len() != "Store"@.len());
    assert("Connect"@.len() != "StoreRemote"@.len());
    assert("Connect"@.len() != "Load"@.len());
    assert("Connect"@.len() != "Free"@.len());
    assert("Connect"@.len() != "ListPeers"@.len());
    let addr = m->Connect_addr;
    let quota = m->Connect_quota;
    let t2 = Seq::<u8>::empty();
    let t1 = entry("quota"@, enc_opt_uint(quota)) + t2;
    let t0 = entry("addr"@, enc_str(addr)) + t1;
    let tagged = entry("cmd"@, enc_str("Connect"@)) + t0;
    let h = enc_len(Sized::Table, 3);
    let h0 = h + entry("cmd"@, enc_str("Connect"@));
    let h1 = h0 + entry("addr"@, enc_str(addr));
    let h2 = h1 + entry("quota"@, enc_opt_uint(quota));
    assert(h2 + t2 =~= h2);
    lemma_join(h1, entry("quota"@, enc_opt_uint(quota)), t2);
    lemma_join(h0, entry("addr"@, enc_str(addr)), t1);
    lemma_join(h, entry("cmd"@, enc_str("Connect"@)), t0);
    assert(enc_command(m) == h2);
    lemma_parse_len(Sized::Table, 3, tagged);
    lemma_str_field("cmd"@, "Connect"@, t0);
    lemma_str_field("addr"@, addr, t1);
    lemma_opt_uint_field("quota"@, quota, t2);
}

proof fn lemma_command_update_peer_quota(m: CommandView)
    requires
        m is UpdatePeerQuota,
        command_fits(m),
    ensures
        dec_command(enc_command(m)) == Some(m),
{
    reveal(dec_command_update_peer_quota);
    reveal_strlit("cmd");
    reveal_strlit("UpdatePeerQuota");
    reveal_strlit("peer_id");
    reveal_strlit("quota");
    reveal_strlit("Store");
    reveal_strlit("StoreRemote");
    reveal_strlit("Load");
    reveal_strlit("Free");
    reveal_strlit("ListPeers");
    reveal_strlit("Connect");
    lemma_short_text_fits("UpdatePeerQuota"@);
    assert("UpdatePeerQuota"@.len() != "Store"@.len());
    assert("UpdatePeerQuota"@.len() != "StoreRemote"@.len());
    assert("UpdatePeerQuota"@.len() != "Load"@.len());
    assert("UpdatePeerQuota"@.len() != "Free"@.len());
    assert("UpdatePeerQuota"@.len() != "ListPeers"@.len());
    assert("UpdatePeerQuota"@.len() != "Connect"@.len());
    let peer_id = m->UpdatePeerQuota_peer_id;
    let quota = m->UpdatePeerQuota_quota;
    let t2 = Seq::<u8>::empty();
    let t1 = entry("quota"@, enc_uint(quota)) + t2;
    let t0 = entry("peer_id"@, enc_str(peer_id)) + t1;
    let tagged = entry("cmd"@, enc_str("UpdatePeerQuota"@)) + t0;
    let h = enc_len(Sized::Table, 3);
    let h0 = h + entry("cmd"@, enc_str("UpdatePeerQuota"@));
    let h1 = h0 + entry("peer_id"@, enc_str(peer_id));
    let h2 = h1 + entry("quota"@, enc_uint(quota));
    assert(h2 + t2 =~= h2);
    lemma_join(h1, entry("quota"@, enc_uint(quota)), t2);
    lemma_join(h0, entry("peer_id"@, enc_str(peer_id)), t1);
    lemma_join(h, entry("cmd"@, enc_str("UpdatePeerQuota"@)), t0);
    assert(enc_command(m) == h2);
    lemma_parse_len(Sized::Table, 3, tagged);
    lemma_str_field("cmd"@, "UpdatePeerQuota"@, t0);
    lemma_str_field("peer_id"@, peer_id, t1);
    lemma_uint_field("quota"@, quota, t2);
}

proof fn lemma_command_disconnect(m: CommandView)
    requires
        m is Disconnect,
        command_fits(m),
    ensures
        dec_command(enc_command(m)) == Some(m),
{
    reveal(dec_command_disconnect);
    reveal_strlit("cmd");
    reveal_strlit("Disconnect");
    reveal_strlit("peer_id");
    reveal_strlit("Store");
    reveal_strlit("StoreRemote");
    reveal_strlit("Load");
    reveal_strlit("Free");
    reveal_strlit("ListPeers");
    reveal_strlit("Connect");
    reveal_strlit("UpdatePeerQuota");
    lemma_short_text_fits("Disconnect"@);
    assert("Disconnect"@.len() != "Store"@.len());
    assert("Disconnect"@.len() != "StoreRemote"@.len());
    assert("Disconnect"@.len() != "Load"@.len());
    assert("Disconnect"@.len() != "Free"@.len());
    assert("Disconnect"@.len() != "ListPeers"@.len());
    assert("Disconnect"@.len() != "Connect"@.len());
    assert("Disconnect"@.len() != "UpdatePeerQuota"@.len());
    let peer_id = m->Disconnect_peer_id;
    let t1 = Seq::<u8>::empty();
    let t0 = entry("peer_id"@, enc_str(peer_id)) + t1;
    let tagged = entry("cmd"@, enc_str("Disconnect"@)) + t0;
    let h = enc_len(Sized::Table, 2);
    let h0 = h + entry("cmd"@, enc_str("Disconnect"@));
    let h1 = h0 + entry("peer_id"@, enc_str(peer_id));
    assert(h1 + t1 =~= h1);
    lemma_join(h0, entry("peer_id"@, enc_str(peer_id)), t1);
    lemma_join(h, entry("cmd"@, enc_str("Disconnect"@)), t0);
    assert(enc_command(m) == h1);
    lemma_parse_len(Sized::Table, 2, tagged);
    lemma_str_field("cmd"@, "Disconnect"@, t0);
    lemma_str_field("peer_id"@, peer_id, t1);
}

#[verifier::rlimit(50)]
proof fn lemma_command_set_key(m: CommandView)
    requires
        m is SetKey,
        command_fits(m),
    ensures
        dec_command(enc_command(m)) == Some(m),
{
    reveal(dec_command_set_key);
    reveal_strlit("cmd");
    reveal_strlit("Set");
    reveal_strlit("key");
    reveal_strlit("data");
    reveal_strlit("target");
    reveal_strlit("durability");
    reveal_strlit("Store");
    reveal_strlit("StoreRemote");
    reveal_strlit("Load");
    reveal_strlit("Free");
    reveal_strlit("ListPeers");
    reveal_strlit("Connect");
    reveal_strlit("UpdatePeerQuota");
    reveal_strlit("Disconnect");
    lemma_short_text_fits("Set"@);
    assert("Set"@.len() != "Store"@.len());
    assert("Set"@.len() != "StoreRemote"@.len());
    assert("Set"@.len() != "Load"@.len());
    assert("Set"@.len() != "Free"@.len());
    assert("Set"@.len() != "ListPeers"@.len());
    assert("Set"@.len() != "Connect"@.len());
    assert("Set"@.len() != "UpdatePeerQuota"@.len());
    assert("Set"@.len() != "Disconnect"@.len());
    let key = m->SetKey_key;
    let data = m->SetKey_data;
    let target = m->SetKey_target;
    let durability = m->SetKey_durability;
    let t4 = Seq::<u8>::empty();
    let t3 = entry("durability"@, enc_mode(durability)) + t4;
    let t2 = entry("target"@, enc_opt_str(target)) + t3;
    let t1 = entry("data"@, enc_bin(data)) + t2;
    let t0 = entry("key"@, enc_str(key)) + t1;
    let tagged = entry("cmd"@, enc_str("Set"@)) + t0;
    let h = enc_len(Sized::Table, 5);
    let h0 = h + entry("cmd"@, enc_str("Set"@));
    let h1 = h0 + entry("key"@, enc_str(key));
    let h2 = h1 + entry("data"@, enc_bin(data));
    let h3 = h2 + entry("target"@, enc_opt_str(target));
    let h4 = h3 + entry("durability"@, enc_mode(durability));
    assert(h4 + t4 =~= h4);
    lemma_join(h3, entry("durability"@, enc_mode(durability)), t4);
    lemma_join(h2, entry("target"@, enc_opt_str(target)), t3);
    lemma_join(h1, entry("data"@, enc_bin(data)), t2);
    lemma_join(h0, entry("key"@, enc_str(key)), t1);
    lemma_join(h, entry("cmd"@, enc_str("Set"@)), t0);
    assert(enc_command(m) == h4);
    lemma_parse_len(Sized::Table, 5, tagged);
    lemma_str_field("cmd"@, "Set"@, t0);
    lemma_str_field("key"@, key, t1);
    lemma_bin_field("data"@, data, t2);
    lemma_opt_str_field("target"@, target, t3);
    lemma_mode_field("durability"@, durability, t4);
}

proof fn lemma_command_get(m: CommandView)
    requires
        m is Get,
        command_fits(m),
    ensures
        dec_command(enc_command(m)) == Some(m),
{
    reveal(dec_command_get);
    reveal_strlit("cmd");
    reveal_strlit("Get");
    reveal_strlit("key");
    reveal_strlit("target");
    reveal_strlit("Store");
    reveal_strlit("StoreRemote");
    reveal_strlit("Load");
    reveal_strlit("Free");
    reveal_strlit("ListPeers");
    reveal_strlit("Connect");
    reveal_strlit("UpdatePeerQuota");
    reveal_strlit("Disconnect");
    reveal_strlit("Set");
    lemma_short_text_fits("Get"@);
    assert("Get"@.len() != "Store"@.len());
    assert("Get"@.len() != "StoreRemote"@.len());
    assert("Get"@.len() != "Load"@.len());
    assert("Get"@.len() != "Free"@.len());
    assert("Get"@.len() != "ListPeers"@.len());
    assert("Get"@.len() != "Connect"@.len());
    assert("Get"@.len() != "UpdatePeerQuota"@.len());
    assert("Get"@.len() != "Disconnect"@.len());
    assert("Get"@[0] != "Set"@[0]);
    let key = m->Get_key;
    let target = m->Get_target;
    let t2 = Seq::<u8>::empty();
    let t1 = entry("target"@, enc_opt_str(target)) + t2;
    let t0 = entry("key"@, enc_str(key)) + t1;
    let tagged = entry("cmd"@, enc_str("Get"@)) + t0;
    let h = enc_len(Sized::Table, 3);
    let h0 = h + entry("cmd"@, enc_str("Get"@));
    let h1 = h0 + entry("key"@, enc_str(key));
    let h2 = h1 + entry("target"@, enc_opt_str(target));
    assert(h2 + t2 =~= h2);
    lemma_join(h1, entry("target"@, enc_opt_str(target)), t2);
    lemma_join(h0, entry("key"@, enc_str(key)), t1);
    lemma_join(h, entry("cmd"@, enc_str("Get"@)), t0);
    assert(enc_command(m) == h2);
    lemma_parse_len(Sized::Table, 3, tagged);
    lemma_str_field("cmd"@, "Get"@, t0);
    lemma_str_field("key"@, key, t1);
    lemma_opt_str_field("target"@, target, t2);
}

proof fn lemma_command_list_keys(m: CommandView)
    requires
        m is ListKeys,
        command_fits(m),
    ensures
        dec_command(enc_command(m)) == Some(m),
{
    reveal(dec_command_list_keys);
    reveal_strlit("cmd");
    reveal_strlit("ListKeys");
    reveal_strlit("pattern");
    reveal_strlit("Store");
    reveal_strlit("StoreRemote");
    reveal_strlit("Load");
    reveal_strlit("Free");
    reveal_strlit("ListPeers");
    reveal_strlit("Connect");
    reveal_strlit("UpdatePeerQuota");
    reveal_strlit("Disconnect");
    reveal_strlit("Set");
    reveal_strlit("Get");
    lemma_short_text_fits("ListKeys"@);
    assert("ListKeys"@.len() != "Store"@.len());
    assert("ListKeys"@.len() != "StoreRemote"@.len());
    assert("ListKeys"@.len() != "Load"@.len());
    assert("ListKeys"@.len() != "Free"@.len());
    assert("ListKeys"@.len() != "ListPeers"@.len());
    assert("ListKeys"@.len() != "Connect"@.len());
    assert("ListKeys"@.len() != "UpdatePeerQuota"@.len());
    assert("ListKeys"@.len() != "Disconnect"@.len());
    assert("ListKeys"@.len() != "Set"@.len());
    assert("ListKeys"@.len() != "Get"@.len());
    let pattern = m->ListKeys_pattern;
    let t1 = Seq::<u8>::empty();
    let t0 = entry("pattern"@, enc_str(pattern)) + t1;
    let tagged = entry("cmd"@, enc_str("ListKeys"@)) + t0;
    let h = enc_len(Sized::Table, 2);
    let h0 = h + entry("cmd"@, enc_str("ListKeys"@));
    let h1 = h0 + entry("pattern"@, enc_str(pattern));
    assert(h1 + t1 =~= h1);
    lemma_join(h0, entry("pattern"@, enc_str(pattern)), t1);
    lemma_join(h, entry("cmd"@, enc_str("ListKeys"@)), t0);
    assert(enc_command(m) == h1);
    lemma_parse_len(Sized::Table, 2, tagged);
    lemma_str_field("cmd"@, "ListKeys"@, t0);
    lemma_str_field("pattern"@, pattern, t1);
}

proof fn lemma_command_stat(m: CommandView)
    requires
        m is Stat,
        command_fits(m),
    ensures
        dec_command(enc_command(m)) == Some(m),
{
    reveal_strlit("cmd");
    reveal_strlit("Stat");
    reveal_strlit("Store");
    reveal_strlit("StoreRemote");
    reveal_strlit("Load");
    reveal_strlit("Free");
    reveal_strlit("ListPeers");
    reveal_strlit("Connect");
    reveal_strlit("UpdatePeerQuota");
    reveal_strlit("Disconnect");
    reveal_strlit("Set");
    reveal_strlit("Get");
    reveal_strlit("ListKeys");
    lemma_short_text_fits("Stat"@);
    assert("Stat"@.len() != "Store"@.len());
    assert("Stat"@.len() != "StoreRemote"@.len());
    assert("Stat"@[0] != "Load"@[0]);
    assert("Stat"@[0] != "Free"@[0]);
    assert("Stat"@.len() != "ListPeers"@.len());
    assert("Stat"@.len() != "Connect"@.len());
    assert("Stat"@.len() != "UpdatePeerQuota"@.len());
    assert("Stat"@.len() != "Disconnect"@.len());
    assert("Stat"@.len() != "Set"@.len());
    assert("Stat"@.len() != "Get"@.len());
    assert("Stat"@.len() != "ListKeys"@.len());
    let t0 = Seq::<u8>::empty();
    let tagged = entry("cmd"@, enc_str("Stat"@)) + t0;
    let h = enc_len(Sized::Table, 1);
    let h0 = h + entry("cmd"@, enc_str("Stat"@));
    assert(h0 + t0 =~= h0);
    lemma_join(h, entry("cmd"@, enc_str("Stat"@)), t0);
    assert(enc_command(m) == h0);
    lemma_parse_len(Sized::Table, 1, tagged);
    lemma_str_field("cmd"@, "Stat"@, t0);
}

proof fn lemma_command_poll_connection(m: CommandView)
    requires
        m is PollConnection,
        command_fits(m),
    ensures
        dec_command(enc_command(m)) == Some(m),
{
    reveal(dec_command_poll_connection);
    reveal_strlit("cmd");
    reveal_strlit("PollConnection");
    reveal_strlit("addr");
    reveal_strlit("Store");
    reveal_strlit("StoreRemote");
    reveal_strlit("Load");
    reveal_strlit("Free");
    reveal_strlit("ListPeers");
    reveal_strlit("Connect");
    reveal_strlit("UpdatePeerQuota");
    reveal_strlit("Disconnect");
    reveal_strlit("Set");
    reveal_strlit("Get");
    reveal_strlit("ListKeys");
    reveal_strlit("Stat");
    lemma_short_text_fits("PollConnection"@);
    assert("PollConnection"@.len() != "Store"@.len());
    assert("PollConnection"@.len() != "StoreRemote"@.len());
    assert("PollConnection"@.len() != "Load"@.len());
    assert("PollConnection"@.len() != "Free"@.len());
    assert("PollConnection"@.len() != "ListPeers"@.len());
    assert("PollConnection"@.len() != "Connect"@.len());
    assert("PollConnection"@.len() != "UpdatePeerQuota"@.len());
    assert("PollConnection"@.len() != "Disconnect"@.len());
    assert("PollConnection"@.len() != "Set"@.len());
    assert("PollConnection"@.len() != "Get"@.len());
    assert("PollConnection"@.len() != "ListKeys"@.len());
    assert("PollConnection"@.len() != "Stat"@.len());
    let addr = m->PollConnection_addr;
    let t1 = Seq::<u8>::empty();
    let t0 = entry("addr"@, enc_str(addr)) + t1;
    let tagged = entry("cmd"@, enc_str("PollConnection"@)) + t0;
    let h = enc_len(Sized::Table, 2);
    let h0 = h + entry("cmd"@, enc_str("PollConnection"@));
    let h1 = h0 + entry("addr"@, enc_str(addr));
    assert(h1 + t1 =~= h1);
    lemma_join(h0, entry("addr"@, enc_str(addr)), t1);
    lemma_join(h, entry("cmd"@, enc_str("PollConnection"@)), t0);
    assert(enc_command(m) == h1);
    lemma_parse_len(Sized::Table, 2, tagged);
    lemma_str_field("cmd"@, "PollConnection"@, t0);
    lemma_str_field("addr"@, addr, t1);
}

proof fn lemma_command_stream_start(m: CommandView)
    requires
        m is StreamStart,
        command_fits(m),
    ensures
        dec_command(enc_command(m)) == Some(m),
{
    reveal(dec_command_stream_start);
    reveal_strlit("cmd");
    reveal_strlit("StreamStart");
    reveal_strlit("size_hint");
    reveal_strlit("Store");
    reveal_strlit("StoreRemote");
    reveal_strlit("Load");
    reveal_strlit("Free");
    reveal_strlit("ListPeers");
    reveal_strlit("Connect");
    reveal_strlit("UpdatePeerQuota");
    reveal_strlit("Disconnect");
    reveal_strlit("Set");
    reveal_strlit("Get");
    reveal_strlit("ListKeys");
    reveal_strlit("Stat");
    reveal_strlit("PollConnection");
    lemma_short_text_fits("StreamStart"@);
    assert("StreamStart"@.len() != "Store"@.len());
    assert("StreamStart"@[2] != "StoreRemote"@[2]);
    assert("StreamStart"@.len() != "Load"@.len());
    assert("StreamStart"@.len() != "Free"@.len());
    assert("StreamStart"@.len() != "ListPeers"@.len());
    assert("StreamStart"@.len() != "Connect"@.len());
    assert("StreamStart"@.len() != "UpdatePeerQuota"@.len());
    assert("StreamStart"@.len() != "Disconnect"@.len());
    assert("StreamStart"@.len() != "Set"@.len());
    assert("StreamStart"@.len() != "Get"@.len());
    assert("StreamStart"@.len() != "ListKeys"@.len());
    assert("StreamStart"@.len() != "Stat"@.len());
    assert("StreamStart"@.len() != "PollConnection"@.len());
    let size_hint = m->StreamStart_size_hint;
    let t1 = Seq::<u8>::empty();
    let t0 = entry("size_hint"@, enc_opt_uint(size_hint)) + t1;
    let tagged = entry("cmd"@, enc_str("StreamStart"@)) + t0;
    let h = enc_len(Sized::Table, 2);
    let h0 = h + entry("cmd"@, enc_str("StreamStart"@));
    let h1 = h0 + entry("size_hint"@, enc_opt_uint(size_hint));
    assert(h1 + t1 =~= h1);
    lemma_join(h0, entry("size_hint"@, enc_opt_uint(size_hint)), t1);
    lemma_join(h, entry("cmd"@, enc_str("StreamStart"@)), t0);
    assert(enc_command(m) == h1);
    lemma_parse_len(Sized::Table, 2, tagged);
    lemma_str_field("cmd"@, "StreamStart"@, t0);
    lemma_opt_uint_field("size_hint"@, size_hint, t1);
}

#[verifier::rlimit(50)]
proof fn lemma_command_stream_chunk(m: CommandView)
    requires
        m is StreamChunk,
        command_fits(m),
    ensures
        dec_command(enc_command(m)) == Some(m),
{
    reveal(dec_command_stream_chunk);
    reveal_strlit("cmd");
    reveal_strlit("StreamChunk");
    reveal_strlit("stream_id");
    reveal_strlit("chunk_seq");
    reveal_strlit("data");
    reveal_strlit("Store");
    reveal_strlit("StoreRemote");
    reveal_strlit("Load");
    reveal_strlit("Free");
    reveal_strlit("ListPeers");
    reveal_strlit("Connect");
    reveal_strlit("UpdatePeerQuota");
    reveal_strlit("Disconnect");
    reveal_strlit("Set");
    reveal_strlit("Get");
    reveal_strlit("ListKeys");
    reveal_strlit("Stat");
    reveal_strlit("PollConnection");
    reveal_strlit("StreamStart");
    lemma_short_text_fits("StreamChunk"@);
    assert("StreamChunk"@.len() != "Store"@.len());
    assert("StreamChunk"@[2] != "StoreRemote"@[2]);
    assert("StreamChunk"@.len() != "Load"@.len());
    assert("StreamChunk"@.len() != "Free"@.len());
    assert("StreamChunk"@.len() != "ListPeers"@.len());
    assert("StreamChunk"@.len() != "Connect"@.len());
    assert("StreamChunk"@.len() != "UpdatePeerQuota"@.len());
    assert("StreamChunk"@.len() != "Disconnect"@.len());
    assert("StreamChunk"@.len() != "Set"@.len());
    assert("StreamChunk"@.len() != "Get"@.len());
    assert("StreamChunk"@.len() != "ListKeys"@.len());
    assert("StreamChunk"@.len() != "Stat"@.len());
    assert("StreamChunk"@.len() != "PollConnection"@.len());
    assert("StreamChunk"@[6] != "StreamStart"@[6]);
    let stream_id = m->StreamChunk_stream_id;
    let chunk_seq = m->StreamChunk_chunk_seq;
    let data = m->StreamChunk_data;
    let t3 = Seq::<u8>::empty();
    let t2 = entry("data"@, enc_bin(data)) + t3;
    let t1 = entry("chunk_seq"@, enc_u32(chunk_seq)) + t2;
    let t0 = entry("stream_id"@, enc_uint(stream_id)) + t1;
    let tagged = entry("cmd"@, enc_str("StreamChunk"@)) + t0;
    let h = enc_len(Sized::Table, 4);
    let h0 = h + entry("cmd"@, enc_str("StreamChunk"@));
    let h1 = h0 + entry("stream_id"@, enc_uint(stream_id));
    let h2 = h1 + entry("chunk_seq"@, enc_u32(chunk_seq));
    let h3 = h2 + entry("data"@, enc_bin(data));
    assert(h3 + t3 =~= h3);
    lemma_join(h2, entry("data"@, enc_bin(data)), t3);
    lemma_join(h1, entry("chunk_seq"@, enc_u32(chunk_seq)), t2);
    lemma_join(h0, entry("stream_id"@, enc_uint(stream_id)), t1);
    lemma_join(h, entry("cmd"@, enc_str("StreamChunk"@)), t0);
    assert(enc_command(m) == h3);
    lemma_parse_len(Sized::Table, 4, tagged);
    lemma_str_field("cmd"@, "StreamChunk"@, t0);
    lemma_uint_field("stream_id"@, stream_id, t1);
    lemma_u32_field("chunk_seq"@, chunk_seq, t2);
    lemma_bin_field("data"@, data, t3);
}

#[verifier::rlimit(50)]
proof fn lemma_command_stream_finish(m: CommandView)
    requires
        m is StreamFinish,
        command_fits(m),
    ensures
        dec_command(enc_command(m)) == Some(m),
{
    reveal(dec_command_stream_finish);
    reveal_strlit("cmd");
    reveal_strlit("StreamFinish");
    reveal_strlit("stream_id");
    reveal_strlit("target");
    reveal_strlit("durability");
    reveal_strlit("Store");
    reveal_strlit("StoreRemote");
    reveal_strlit("Load");
    reveal_strlit("Free");
    reveal_strlit("ListPeers");
    reveal_strlit("Connect");
    reveal_strlit("UpdatePeerQuota");
    reveal_strlit("Disconnect");
    reveal_strlit("Set");
    reveal_strlit("Get");
    reveal_strlit("ListKeys");
    reveal_strlit("Stat");
    reveal_strlit("PollConnection");
    reveal_strlit("StreamStart");
    reveal_strlit("StreamChunk");
    lemma_short_text_fits("StreamFinish"@);
    assert("StreamFinish"@.len() != "Store"@.len());
    assert("StreamFinish"@.len() != "StoreRemote"@.len());
    assert("StreamFinish"@.len() != "Load"@.len());
    assert("StreamFinish"@.len() != "Free"@.len());
    assert("StreamFinish"@.len() != "ListPeers"@.len());
    assert("StreamFinish"@.len() != "Connect"@.len());
    assert("StreamFinish"@.len() != "UpdatePeerQuota"@.len());
    assert("StreamFinish"@.len() != "Disconnect"@.len());
    assert("StreamFinish"@.len() != "Set"@.len());
    assert("StreamFinish"@.len() != "Get"@.len());
    assert("StreamFinish"@.len() != "ListKeys"@.len());
    assert("StreamFinish"@.len() != "Stat"@.len());
    assert("StreamFinish"@.len() != "PollConnection"@.len());
    assert("StreamFinish"@.len() != "StreamStart"@.len());
    assert("StreamFinish"@.len() != "StreamChunk"@.len());
    let stream_id = m->StreamFinish_stream_id;
    let target = m->StreamFinish_target;
    let durability = m->StreamFinish_durability;
    let t3 = Seq::<u8>::empty();
    let t2 = entry("durability"@, enc_mode(durability)) + t3;
    let t1 = entry("target"@, enc_opt_str(target)) + t2;
    let t0 = entry("stream_id"@, enc_uint(stream_id)) + t1;
    let tagged = entry("cmd"@, enc_str("StreamFinish"@)) + t0;
    let h = enc_len(Sized::Table, 4);
    let h0 = h + entry("cmd"@, enc_str("StreamFinish"@));
    let h1 = h0 + entry("stream_id"@, enc_uint(stream_id));
    let h2 = h1 + entry("target"@, enc_opt_str(target));
    let h3 = h2 + entry("durability"@, enc_mode(durability));
    assert(h3 + t3 =~= h3);
    lemma_join(h2, entry("durability"@, enc_mode(durability)), t3);
    lemma_join(h1, entry("target"@, enc_opt_str(target)), t2);
    lemma_join(h0, entry("stream_id"@, enc_uint(stream_id)), t1);
    lemma_join(h, entry("cmd"@, enc_str("StreamFinish"@)), t0);
    assert(enc_command(m) == h3);
    lemma_parse_len(Sized::Table, 4, tagged);
    lemma_str_field("cmd"@, "StreamFinish"@, t0);
    lemma_uint_field("stream_id"@, stream_id, t1);
    lemma_opt_str_field("target"@, target, t2);
    lemma_mode_field("durability"@, durability, t3);
}

proof fn lemma_command_flush(m: CommandView)
    requires
        m is Flush,
        command_fits(m),
    ensures
        dec_command(enc_command(m)) == Some(m),
{
    reveal(dec_command_flush);
    reveal_strlit("cmd");
    reveal_strlit("Flush");
    reveal_strlit("target");
    reveal_strlit("Store");
    reveal_strlit("StoreRemote");
    reveal_strlit("Load");
    reveal_strlit("Free");
    reveal_strlit("ListPeers");
    reveal_strlit("Connect");
    reveal_strlit("UpdatePeerQuota");
    reveal_strlit("Disconnect");
    reveal_strlit("Set");
    reveal_strlit("Get");
    reveal_strlit("ListKeys");
    reveal_strlit("Stat");
    reveal_strlit("PollConnection");
    reveal_strlit("StreamStart");
    reveal_strlit("StreamChunk");
    reveal_strlit("StreamFinish");
    lemma_short_text_fits("Flush"@);
    assert("Flush"@[0] != "Store"@[0]);
    assert("Flush"@.len() != "StoreRemote"@.len());
    assert("Flush"@.len() != "Load"@.len());
    assert("Flush"@.len() != "Free"@.len());
    assert("Flush"@.len() != "ListPeers"@.len());
    assert("Flush"@.len() != "Connect"@.len());
    assert("Flush"@.len() != "UpdatePeerQuota"@.len());
    assert("Flush"@.len() != "Disconnect"@.len());
    assert("Flush"@.len() != "Set"@.len());
    assert("Flush"@.len() != "Get"@.len());
    assert("Flush"@.len() != "ListKeys"@.len());
    assert("Flush"@.len() != "Stat"@.len());
    assert("Flush"@.len() != "PollConnection"@.len());
    assert("Flush"@.len() != "StreamStart"@.len());
    assert("Flush"@.len() != "StreamChunk"@.len());
    assert("Flush"@.len() != "StreamFinish"@.len());
    let target = m->Flush_target;
    let t1 = Seq::<u8>::empty();
    let t0 = entry("target"@, enc_opt_str(target)) + t1;
    let tagged = entry("cmd"@, enc_str("Flush"@)) + t0;
    let h = enc_len(Sized::Table, 2);
    let h0 = h + entry("cmd"@, enc_str("Flush"@));
    let h1 = h0 + entry("target"@, enc_opt_str(target));
    assert(h1 + t1 =~= h1);
    lemma_join(h0, entry("target"@, enc_opt_str(target)), t1);
    lemma_join(h, entry("cmd"@, enc_str("Flush"@)), t0);
    assert(enc_command(m) == h1);
    lemma_parse_len(Sized::Table, 2, tagged);
    lemma_str_field("cmd"@, "Flush"@, t0);
    lemma_opt_str_field("target"@, target, t1);
}

proof fn lemma_command_trust_list(m: CommandView)
    requires
        m is TrustList,
        command_fits(m),
    ensures
        dec_command(enc_command(m)) == Some(m),
{
    reveal_strlit("cmd");
    reveal_strlit("TrustList");
    reveal_strlit("Store");
    reveal_strlit("StoreRemote");
    reveal_strlit("Load");
    reveal_strlit("Free");
    reveal_strlit("ListPeers");
    reveal_strlit("Connect");
    reveal_strlit("UpdatePeerQuota");
    reveal_strlit("Disconnect");
    reveal_strlit("Set");
    reveal_strlit("Get");
    reveal_strlit("ListKeys");
    reveal_strlit("Stat");
    reveal_strlit("PollConnection");
    reveal_strlit("StreamStart");
    reveal_strlit("StreamChunk");
    reveal_strlit("StreamFinish");
    reveal_strlit("Flush");
    lemma_short_text_fits("TrustList"@);
    assert("TrustList"@.len() != "Store"@.len());
    assert("TrustList"@.len() != "StoreRemote"@.len());
    assert("TrustList"@.len() != "Load"@.len());
    assert("TrustList"@.len() != "Free"@.len());
    assert("TrustList"@[0] != "ListPeers"@[0]);
    assert("TrustList"@.len() != "Connect"@.len());
    assert("TrustList"@.len() != "UpdatePeerQuota"@.len());
    assert("TrustList"@.len() != "Disconnect"@.len());
    assert("TrustList"@.len() != "Set"@.len());
    assert("TrustList"@.len() != "Get"@.len());
    assert("TrustList"@.len() != "ListKeys"@.len());
    assert("TrustList"@.len() != "Stat"@.len());
    assert("TrustList"@.len() != "PollConnection"@.len());
    assert("TrustList"@.len() != "StreamStart"@.len());
    assert("TrustList"@.len() != "StreamChunk"@.len());
    assert("TrustList"@.len() != "StreamFinish"@.len());
    assert("TrustList"@.len() != "Flush"@.len());
    let t0 = Seq::<u8>::empty();
    let tagged = entry("cmd"@, enc_str("TrustList"@)) + t0;
    let h = enc_len(Sized::Table, 1);
    let h0 = h + entry("cmd"@, enc_str("TrustList"@));
    assert(h0 + t0 =~= h0);
    lemma_join(h, entry("cmd"@, enc_str("TrustList"@)), t0);
    assert(enc_command(m) == h0);
    lemma_parse_len(Sized::Table, 1, tagged);
    lemma_str_field("cmd"@, "TrustList"@, t0);
}

proof fn lemma_command_trust_remove(m: CommandView)
    requires
        m is TrustRemove,
        command_fits(m),
    ensures
        dec_command(enc_command(m)) == Some(m),
{
    reveal(dec_command_trust_remove);
    reveal_strlit("cmd");
    reveal_strlit("TrustRemove");
    reveal_strlit("key_or_name");
    reveal_strlit("Store");
    reveal_strlit("StoreRemote");
    reveal_strlit("Load");
    reveal_strlit("Free");
    reveal_strlit("ListPeers");
    reveal_strlit("Connect");
    reveal_strlit("UpdatePeerQuota");
    reveal_strlit("Disconnect");
    reveal_strlit("Set");
    reveal_strlit("Get");
    reveal_strlit("ListKeys");
    reveal_strlit("Stat");
    reveal_strlit("PollConnection");
    reveal_strlit("StreamStart");
    reveal_strlit("StreamChunk");
    reveal_strlit("StreamFinish");
    reveal_strlit("Flush");
    reveal_strlit("TrustList");
    lemma_short_text_fits("TrustRemove"@);
    assert("TrustRemove"@.len() != "Store"@.len());
    assert("TrustRemove"@[0] != "StoreRemote"@[0]);
    assert("TrustRemove"@.len() != "Load"@.len());
    assert("TrustRemove"@.len() != "Free"@.len());
    assert("TrustRemove"@.len() != "ListPeers"@.len());
    assert("TrustRemove"@.len() != "Connect"@.len());
    assert("TrustRemove"@.len() != "UpdatePeerQuota"@.len());
    assert("TrustRemove"@.len() != "Disconnect"@.len());
    assert("TrustRemove"@.len() != "Set"@.len());
    assert("TrustRemove"@.len() != "Get"@.len());
    assert("TrustRemove"@.len() != "ListKeys"@.len());
    assert("TrustRemove"@.len() != "Stat"@.len());
    assert("TrustRemove"@.len() != "PollConnection"@.len());
    assert("TrustRemove"@[0] != "StreamStart"@[0]);
    assert("TrustRemove"@[0] != "StreamChunk"@[0]);
    assert("TrustRemove"@.len() != "StreamFinish"@.len());
    assert("TrustRemove"@.len() != "Flush"@.len());
    assert("TrustRemove"@.len() != "TrustList"@.len());
    let key_or_name = m->TrustRemove_key_or_name;
    let t1 = Seq::<u8>::empty();
    let t0 = entry("key_or_name"@, enc_str(key_or_name)) + t1;
    let tagged = entry("cmd"@, enc_str("TrustRemove"@)) + t0;
    let h = enc_len(Sized::Table, 2);
    let h0 = h + entry("cmd"@, enc_str("TrustRemove"@));
    let h1 = h0 + entry("key_or_name"@, enc_str(key_or_name));
    assert(h1 + t1 =~= h1);
    lemma_join(h0, entry("key_or_name"@, enc_str(key_or_name)), t1);
    lemma_join(h, entry("cmd"@, enc_str("TrustRemove"@)), t0);
    assert(enc_command(m) == h1);
    lemma_parse_len(Sized::Table, 2, tagged);
    lemma_str_field("cmd"@, "TrustRemove"@, t0);
    lemma_str_field("key_or_name"@, key_or_name, t1);
}

proof fn lemma_command_consent_list(m: CommandView)
    requires
        m is ConsentList,
        command_fits(m),
    ensures
        dec_command(enc_command(m)) == Some(m),
{
    reveal_strlit("cmd");
    reveal_strlit("ConsentList");
    reveal_strlit("Store");
    reveal_strlit("StoreRemote");
    reveal_strlit("Load");
    reveal_strlit("Free");
    reveal_strlit("ListPeers");
    reveal_strlit("Connect");
    reveal_strlit("UpdatePeerQuota");
    reveal_strlit("Disconnect");
    reveal_strlit("Set");
    reveal_strlit("Get");
    reveal_strlit("ListKeys");
    reveal_strlit("Stat");
    reveal_strlit("PollConnection");
    reveal_strlit("StreamStart");
    reveal_strlit("StreamChunk");
    reveal_strlit("StreamFinish");
    reveal_strlit("Flush");
    reveal_strlit("TrustList");
    reveal_strlit("TrustRemove");
    lemma_short_text_fits("ConsentList"@);
    assert("ConsentList"@.len() != "Store"@.len());
    assert("ConsentList"@[0] != "StoreRemote"@[0]);
    assert("ConsentList"@.len() != "Load"@.len());
    assert("ConsentList"@.len() != "Free"@.len());
    assert("ConsentList"@.len() != "ListPeers"@.len());
    assert("ConsentList"@.len() != "Connect"@.len());
    assert("ConsentList"@.len() != "UpdatePeerQuota"@.len());
    assert("ConsentList"@.len() != "Disconnect"@.len());
    assert("ConsentList"@.len() != "Set"@.len());
    assert("ConsentList"@.len() != "Get"@.len());
    assert("ConsentList"@.len() != "ListKeys"@.len());
    assert("ConsentList"@.len() != "Stat"@.len());
    assert("ConsentList"@.len() != "PollConnection"@.len());
    assert("ConsentList"@[0] != "StreamStart"@[0]);
    assert("ConsentList"@[0] != "StreamChunk"@[0]);
    assert("ConsentList"@.len() != "StreamFinish"@.len());
    assert("ConsentList"@.len() != "Flush"@.len());
    assert("ConsentList"@.len() != "TrustList"@.len());
    assert("ConsentList"@[0] != "TrustRemove"@[0]);
    let t0 = Seq::<u8>::empty();
    let tagged = entry("cmd"@, enc_str("ConsentList"@)) + t0;
    let h = enc_len(Sized::Table, 1);
    let h0 = h + entry("cmd"@, enc_str("ConsentList"@));
    assert(h0 + t0 =~= h0);
    lemma_join(h, entry("cmd"@, enc_str("ConsentList"@)), t0);
    assert(enc_command(m) == h0);
    lemma_parse_len(Sized::Table, 1, tagged);
    lemma_str_field("cmd"@, "ConsentList"@, t0);
}

proof fn lemma_command_consent_approve(m: CommandView)
    requires
        m is ConsentApprove,
        command_fits(m),
    ensures
        dec_command(enc_command(m)) == Some(m),
{
    reveal(dec_command_consent_approve);
    reveal_strlit("cmd");
    reveal_strlit("ConsentApprove");
    reveal_strlit("session_id");
    reveal_strlit("trust_always");
    reveal_strlit("Store");
    reveal_strlit("StoreRemote");
    reveal_strlit("Load");
    reveal_strlit("Free");
    reveal_strlit("ListPeers");
    reveal_strlit("Connect");
    reveal_strlit("UpdatePeerQuota");
    reveal_strlit("Disconnect");
    reveal_strlit("Set");
    reveal_strlit("Get");
    reveal_strlit("ListKeys");
    reveal_strlit("Stat");
    reveal_strlit("PollConnection");
    reveal_strlit("StreamStart");
    reveal_strlit("StreamChunk");
    reveal_strlit("StreamFinish");
    reveal_strlit("Flush");
    reveal_strlit("TrustList");
    reveal_strlit("TrustRemove");
    reveal_strlit("ConsentList");
    lemma_short_text_fits("ConsentApprove"@);
    assert("ConsentApprove"@.len() != "Store"@.len());
    assert("ConsentApprove"@.len() != "StoreRemote"@.len());
    assert("ConsentApprove"@.len() != "Load"@.len());
    assert("ConsentApprove"@.len() != "Free"@.len());
    assert("ConsentApprove"@.len() != "ListPeers"@.len());
    assert("ConsentApprove"@.len() != "Connect"@.len());
    assert("ConsentApprove"@.len() != "UpdatePeerQuota"@.len());
    assert("ConsentApprove"@.len() != "Disconnect"@.len());
    assert("ConsentApprove"@.len() != "Set"@.len());
    assert("ConsentApprove"@.len() != "Get"@.len());
    assert("ConsentApprove"@.len() != "ListKeys"@.len());
    assert("ConsentApprove"@.len() != "Stat"@.len());
    assert("ConsentApprove"@[0] != "PollConnection"@[0]);
    assert("ConsentApprove"@.len() != "StreamStart"@.len());
    assert("ConsentApprove"@.len() != "StreamChunk"@.len());
    assert("ConsentApprove"@.len() != "StreamFinish"@.len());
    assert("ConsentApprove"@.len() != "Flush"@.len());
    assert("ConsentApprove"@.len() != "TrustList"@.len());
    assert("ConsentApprove"@.len() != "TrustRemove"@.len());
    assert("ConsentApprove"@.len() != "ConsentList"@.len());
    let session_id = m->ConsentApprove_session_id;
    let trust_always = m->ConsentApprove_trust_always;
    let t2 = Seq::<u8>::empty();
    let t1 = entry("trust_always"@, enc_bool(trust_always)) + t2;
    let t0 = entry("session_id"@, enc_str(session_id)) + t1;
    let tagged = entry("cmd"@, enc_str("ConsentApprove"@)) + t0;
    let h = enc_len(Sized::Table, 3);
    let h0 = h + entry("cmd"@, enc_str("ConsentApprove"@));
    let h1 = h0 + entry("session_id"@, enc_str(session_id));
    let h2 = h1 + entry("trust_always"@, enc_bool(trust_always));
    assert(h2 + t2 =~= h2);
    lemma_join(h1, entry("trust_always"@, enc_bool(trust_always)), t2);
    lemma_join(h0, entry("session_id"@, enc_str(session_id)), t1);
    lemma_join(h, entry("cmd"@, enc_str("ConsentApprove"@)), t0);
    assert(enc_command(m) == h2);
    lemma_parse_len(Sized::Table, 3, tagged);
    lemma_str_field("cmd"@, "ConsentApprove"@, t0);
    lemma_str_field("session_id"@, session_id, t1);
    lemma_bool_field("trust_always"@, trust_always, t2);
}

proof fn lemma_command_consent_deny(m: CommandView)
    requires
        m is ConsentDeny,
        command_fits(m),
    ensures
        dec_command(enc_command(m)) == Some(m),
{
    reveal(dec_command_consent_deny);
    reveal_strlit("cmd");
    reveal_strlit("ConsentDeny");
    reveal_strlit("session_id");
    reveal_strlit("Store");
    reveal_strlit("StoreRemote");
    reveal_strlit("Load");
    reveal_strlit("Free");
    reveal_strlit("ListPeers");
    reveal_strlit("Connect");
    reveal_strlit("UpdatePeerQuota");
    reveal_strlit("Disconnect");
    reveal_strlit("Set");
    reveal_strlit("Get");
    reveal_strlit("ListKeys");
    reveal_strlit("Stat");
    reveal_strlit("PollConnection");
    reveal_strlit("StreamStart");
    reveal_strlit("StreamChunk");
    reveal_strlit("StreamFinish");
    reveal_strlit("Flush");
    reveal_strlit("TrustList");
    reveal_strlit("TrustRemove");
    reveal_strlit("ConsentList");
    reveal_strlit("ConsentApprove");
    lemma_short_text_fits("ConsentDeny"@);
    assert("ConsentDeny"@.len() != "Store"@.len());
    assert("ConsentDeny"@[0] != "StoreRemote"@[0]);
    assert("ConsentDeny"@.len() != "Load"@.len());
    assert("ConsentDeny"@.len() != "Free"@.len());
    assert("ConsentDeny"@.len() != "ListPeers"@.len());
    assert("ConsentDeny"@.len() != "Connect"@.len());
    assert("ConsentDeny"@.len() != "UpdatePeerQuota"@.len());
    assert("ConsentDeny"@.len() != "Disconnect"@.len());
    assert("ConsentDeny"@.len() != "Set"@.len());
    assert("ConsentDeny"@.len() != "Get"@.len());
    assert("ConsentDeny"@.len() != "ListKeys"@.len());
    assert("ConsentDeny"@.len() != "Stat"@.len());
    assert("ConsentDeny"@.len() != "PollConnection"@.len());
    assert("ConsentDeny"@[0] != "StreamStart"@[0]);
    assert("ConsentDeny"@[0] != "StreamChunk"@[0]);
    assert("ConsentDeny"@.len() != "StreamFinish"@.len());
    assert("ConsentDeny"@.len() != "Flush"@.len());
    assert("ConsentDeny"@.len() != "TrustList"@.len());
    assert("ConsentDeny"@[0] != "TrustRemove"@[0]);
    assert("ConsentDeny"@[7] != "ConsentList"@[7]);
    assert("ConsentDeny"@.len() != "ConsentApprove"@.len());
    let session_id = m->ConsentDeny_session_id;
    let t1 = Seq::<u8>::empty();
    let t0 = entry("session_id"@, enc_str(session_id)) + t1;
    let tagged = entry("cmd"@, enc_str("ConsentDeny"@)) + t0;
    let h = enc_len(Sized::Table, 2);
    let h0 = h + entry("cmd"@, enc_str("ConsentDeny"@));
    let h1 = h0 + entry("session_id"@, enc_str(session_id));
    assert(h1 + t1 =~= h1);
    lemma_join(h0, entry("session_id"@, enc_str(session_id)), t1);
    lemma_join(h, entry("cmd"@, enc_str("ConsentDeny"@)), t0);
    assert(enc_command(m) == h1);
    lemma_parse_len(Sized::Table, 2, tagged);
    lemma_str_field("cmd"@, "ConsentDeny"@, t0);
    lemma_str_field("session_id"@, session_id, t1);
}

/// A command that is written and read back is the same.
pub proof fn lemma_command_roundtrip(m: CommandView)
    requires
        command_fits(m),
    ensures
        dec_command(enc_command(m)) == Some(m),
{
    match m {
        CommandView::Store { .. } => {
            lemma_command_store(m);
        },
        CommandView::StoreRemote { .. } => {
            lemma_command_store_remote(m);
        },
        CommandView::Load { .. } => {
            lemma_command_load(m);
        },
        CommandView::Free { .. } => {
            lemma_command_free(m);
        },
        CommandView::ListPeers => {
            lemma_command_list_peers(m);
        },
        CommandView::Connect { .. } => {
            lemma_command_connect(m);
        },
        CommandView::UpdatePeerQuota { .. } => {
            lemma_command_update_peer_quota(m);
        },
        CommandView::Disconnect { .. } => {
            lemma_command_disconnect(m);
        },
        CommandView::SetKey { .. } => {
            lemma_command_set_key(m);
        },
        CommandView::Get { .. } => {
            lemma_command_get(m);
        },
        CommandView::ListKeys { .. } => {
            lemma_command_list_keys(m);
        },
        CommandView::Stat => {
            lemma_command_stat(m);
        },
        CommandView::PollConnection { .. } => {
            lemma_command_poll_connection(m);
        },
        CommandView::StreamStart { .. } => {
            lemma_command_stream_start(m);
        },
        CommandView::StreamChunk { .. } => {
            lemma_command_stream_chunk(m);
        },
        CommandView::StreamFinish { .. } => {
            lemma_command_stream_finish(m);
        },
        CommandView::Flush { .. } => {
            lemma_command_flush(m);
        },
        CommandView::TrustList => {
            lemma_command_trust_list(m);
        },
        CommandView::TrustRemove { .. } => {
            lemma_command_trust_remove(m);
        },
        CommandView::ConsentList => {
            lemma_command_consent_list(m);
        },
        CommandView::ConsentApprove { .. } => {
            lemma_command_consent_approve(m);
        },
        CommandView::ConsentDeny { .. } => {
            lemma_command_consent_deny(m);
        },
    }
}

fn write_command_store(p: &mut Packer, m: &SdkCommand)
    requires
        old(p).ok,
        old(p).out@.len() == 0,
        m is Store,
    ensures
        final(p).ok == command_fits(m@),
        final(p).ok ==> final(p).out@ == enc_command(m@),
{
    proof {
        reveal_strlit("cmd");
        reveal_strlit("Store");
        reveal_strlit("data");
        reveal_strlit("durability");
        lemma_short_text_fits("Store"@);
    }
    match m {
        SdkCommand::Store { data, durability } => {
            p.len(Sized::Table, 3);
            assert(p.out@ =~= enc_len(Sized::Table, 3));
            put_str(p, "cmd", &String::from_str("Store"));
            put_bin(p, "data", data);
            put_mode(p, "durability", durability);
        },
        _ => {},
    }
}

fn read_command_store(u: &mut Unpacker) -> (r: Option<SdkCommand>)
    requires
        old(u).wf(),
    ensures
        r.is_some() == dec_command_store(old(u).rest()).is_some(),
        r.is_some() ==> dec_command_store(old(u).rest()) == Some(r.unwrap()@),
{
    reveal(dec_command_store);
    let data = match get_bin(u, "data") {
        Some(v) => v,
        None => {
            return None;
        },
    };
    let durability = match get_mode(u, "durability") {
        Some(v) => v,
        None => {
            return None;
        },
    };
    if u.at_end() {
        Some(SdkCommand::Store { data, durability })
    } else {
        None
    }
}

#[verifier::rlimit(40)]
fn write_command_store_remote(p: &mut Packer, m: &SdkCommand)
    requires
        old(p).ok,
        old(p).out@.len() == 0,
        m is StoreRemote,
    ensures
        final(p).ok == command_fits(m@),
        final(p).ok ==> final(p).out@ == enc_command(m@),
{
    proof {
        reveal_strlit("cmd");
        reveal_strlit("StoreRemote");
        reveal_strlit("data");
        reveal_strlit("target");
        reveal_strlit("durability");
        lemma_short_text_fits("StoreRemote"@);
    }
    match m {
        SdkCommand::StoreRemote { data, target, durability } => {
            p.len(Sized::Table, 4);
            assert(p.out@ =~= enc_len(Sized::Table, 4));
            put_str(p, "cmd", &String::from_str("StoreRemote"));
            put_bin(p, "data", data);
            put_opt_str(p, "target", target);
            put_mode(p, "durability", durability);
        },
        _ => {},
    }
}

#[verifier::rlimit(40)]
fn read_command_store_remote(u: &mut Unpacker) -> (r: Option<SdkCommand>)
    requires
        old(u).wf(),
    ensures
        r.is_some() == dec_command_store_remote(old(u).rest()).is_some(),
        r.is_some() ==> dec_command_store_remote(old(u).rest()) == Some(r.unwrap()@),
{
    reveal(dec_command_store_remote);
    let data = match get_bin(u, "data") {
        Some(v) => v,
        None => {
            return None;
        },
    };
    let target = match get_opt_str(u, "target") {
        Some(v) => v,
        None => {
            return None;
        },
    };
    let durability = match get_mode(u, "durability") {
        Some(v) => v,
        None => {
            return None;
        },
    };
    if u.at_end() {
        Some(SdkCommand::StoreRemote { data, target, durability })
    } else {
        None
    }
}

fn write_command_load(p: &mut Packer, m: &SdkCommand)
    requires
        old(p).ok,
        old(p).out@.len() == 0,
        m is Load,
    ensures
        final(p).ok == command_fits(m@),
        final(p).ok ==> final(p).out@ == enc_command(m@),
{
    proof {
        reveal_strlit("cmd");
        reveal_strlit("Load");
        reveal_strlit("id");
        lemma_short_text_fits("Load"@);
    }
    match m {
        SdkCommand::Load { id } => {
            p.len(Sized::Table, 2);
            assert(p.out@ =~= enc_len(Sized::Table, 2));
            put_str(p, "cmd", &String::from_str("Load"));
            put_id(p, "id", id);
        },
        _ => {},
    }
}

fn read_command_load(u: &mut Unpacker) -> (r: Option<SdkCommand>)
    requires
        old(u).wf(),
    ensures
        r.is_some() == dec_command_load(old(u).rest()).is_some(),
        r.is_some() ==> dec_command_load(old(u).rest()) == Some(r.unwrap()@),
{
    reveal(dec_command_load);
    let id = match get_id(u, "id") {
        Some(v) => v,
        None => {
            return None;
        },
    };
    if u.at_end() {
        Some(SdkCommand::Load { id })
    } else {
        None
    }
}

fn write_command_free(p: &mut Packer, m: &SdkCommand)
    requires
        old(p).ok,
        old(p).out@.len() == 0,
        m is Free,
    ensures
        final(p).ok == command_fits(m@),
        final(p).ok ==> final(p).out@ == enc_command(m@),
{
    proof {
        reveal_strlit("cmd");
        reveal_strlit("Free");
        reveal_strlit("id");
        lemma_short_text_fits("Free"@);
    }
    match m {
        SdkCommand::Free { id } => {
            p.len(Sized::Table, 2);
            assert(p.out@ =~= enc_len(Sized::Table, 2));
            put_str(p, "cmd", &String::from_str("Free"));
            put_id(p, "id", id);
        },
        _ => {},
    }
}

fn read_command_free(u: &mut Unpacker) -> (r: Option<SdkCommand>)
    requires
        old(u).wf(),
    ensures
        r.is_some() == dec_command_free(old(u).rest()).is_some(),
        r.is_some() ==> dec_command_free(old(u).rest()) == Some(r.unwrap()@),
{
    reveal(dec_command_free);
    let id = match get_id(u, "id") {
        Some(v) => v,
        None => {
            return None;
        },
    };
    if u.at_end() {
        Some(SdkCommand::Free { id })
    } else {
        None
    }
}

fn write_command_connect(p: &mut Packer, m: &SdkCommand)
    requires
        old(p).ok,
        old(p).out@.len() == 0,
        m is Connect,
    ensures
        final(p).ok == command_fits(m@),
        final(p).ok ==> final(p).out@ == enc_command(m@),
{
    proof {
        reveal_strlit("cmd");
        reveal_strlit("Connect");
        reveal_strlit("addr");
        reveal_strlit("quota");
        lemma_short_text_fits("Connect"@);
    }
    match m {
        SdkCommand::Connect { addr, quota } => {
            p.len(Sized::Table, 3);
            assert(p.out@ =~= enc_len(Sized::Table, 3));
            put_str(p, "cmd", &String::from_str("Connect"));
            put_str(p, "addr", addr);
            put_opt_uint(p, "quota", quota);
        },
        _ => {},
    }
}

fn read_command_connect(u: &mut Unpacker) -> (r: Option<SdkCommand>)
    requires
        old(u).wf(),
    ensures
        r.is_some() == dec_command_connect(old(u).rest()).is_some(),
        r.is_some() ==> dec_command_connect(old(u).rest()) == Some(r.unwrap()@),
{
    reveal(dec_command_connect);
    let addr = match get_str(u, "addr") {
        Some(v) => v,
        None => {
            return None;
        },
    };
    let quota = match get_opt_uint(u, "quota") {
        Some(v) => v,
        None => {
            return None;
        },
    };
    if u.at_end() {
        Some(SdkCommand::Connect { addr, quota })
    } else {
        None
    }
}

fn write_command_update_peer_quota(p: &mut Packer, m: &SdkCommand)
    requires
        old(p).ok,
        old(p).out@.len() == 0,
        m is UpdatePeerQuota,
    ensures
        final(p).ok == command_fits(m@),
        final(p).ok ==> final(p).out@ == enc_command(m@),
{
    proof {
        reveal_strlit("cmd");
        reveal_strlit("UpdatePeerQuota");
        reveal_strlit("peer_id");
        reveal_strlit("quota");
        lemma_short_text_fits("UpdatePeerQuota"@);
    }
    match m {
        SdkCommand::UpdatePeerQuota { peer_id, quota } => {
            p.len(Sized::Table, 3);
            assert(p.out@ =~= enc_len(Sized::Table, 3));
            put_str(p, "cmd", &String::from_str("UpdatePeerQuota"));
            put_str(p, "peer_id", peer_id);
            put_uint(p, "quota", quota);
        },
        _ => {},
    }
}

fn read_command_update_peer_quota(u: &mut Unpacker) -> (r: Option<SdkCommand>)
    requires
        old(u).wf(),
    ensures
        r.is_some() == dec_command_update_peer_quota(old(u).rest()).is_some(),
        r.is_some() ==> dec_command_update_peer_quota(old(u).rest()) == Some(r.unwrap()@),
{
    reveal(dec_command_update_peer_quota);
    let peer_id = match get_str(u, "peer_id") {
        Some(v) => v,
        None => {
            return None;
        },
    };
    let quota = match get_uint(u, "quota") {
        Some(v) => v,
        None => {
            return None;
        },
    };
    if u.at_end() {
        Some(SdkCommand::UpdatePeerQuota { peer_id, quota })
    } else {
        None
    }
}

fn write_command_disconnect(p: &mut Packer, m: &SdkCommand)
    requires
        old(p).ok,
        old(p).out@.len() == 0,
        m is Disconnect,
    ensures
        final(p).ok == command_fits(m@),
        final(p).ok ==> final(p).out@ == enc_command(m@),
{
    proof {
        reveal_strlit("cmd");
        reveal_strlit("Disconnect");
        reveal_strlit("peer_id");
        lemma_short_text_fits("Disconnect"@);
    }
    match m {
        SdkCommand::Disconnect { peer_id } => {
            p.len(Sized::Table, 2);
            assert(p.out@ =~= enc_len(Sized::Table, 2));
            put_str(p, "cmd", &String::from_str("Disconnect"));
            put_str(p, "peer_id", peer_id);
        },
        _ => {},
    }
}

fn read_command_disconnect(u: &mut Unpacker) -> (r: Option<SdkCommand>)
    requires
        old(u).wf(),
    ensures
        r.is_some() == dec_command_disconnect(old(u).rest()).is_some(),
        r.is_some() ==> dec_command_disconnect(old(u).rest()) == Some(r.unwrap()@),
{
    reveal(dec_command_disconnect);
    let peer_id = match get_str(u, "peer_id") {
        Some(v) => v,
        None => {
            return None;
        },
    };
    if u.at_end() {
        Some(SdkCommand::Disconnect { peer_id })
    } else {
        None
    }
}

#[verifier::rlimit(40)]
fn write_command_set_key(p: &mut Packer, m: &SdkCommand)
    requires
        old(p).ok,
        old(p).out@.len() == 0,
        m is SetKey,
    ensures
        final(p).ok == command_fits(m@),
        final(p).ok ==> final(p).out@ == enc_command(m@),
{
    proof {
        reveal_strlit("cmd");
        reveal_strlit("Set");
        reveal_strlit("key");
        reveal_strlit("data");
        reveal_strlit("target");
        reveal_strlit("durability");
        lemma_short_text_fits("Set"@);
    }
    match m {
        SdkCommand::SetKey { key, data, target, durability } => {
            p.len(Sized::Table, 5);
            assert(p.out@ =~= enc_len(Sized::Table, 5));
            put_str(p, "cmd", &String::from_str("Set"));
            put_str(p, "key", key);
            put_bin(p, "data", data);
            put_opt_str(p, "target", target);
            put_mode(p, "durability", durability);
        },
        _ => {},
    }
}

#[verifier::rlimit(40)]
fn read_command_set_key(u: &mut Unpacker) -> (r: Option<SdkCommand>)
    requires
        old(u).wf(),
    ensures
        r.is_some() == dec_command_set_key(old(u).rest()).is_some(),
        r.is_some() ==> dec_command_set_key(old(u).rest()) == Some(r.unwrap()@),
{
    reveal(dec_command_set_key);
    let key = match get_str(u, "key") {
        Some(v) => v,
        None => {
            return None;
        },
    };
    let data = match get_bin(u, "data") {
        Some(v) => v,
        None => {
            return None;
        },
    };
    let target = match get_opt_str(u, "target") {
        Some(v) => v,
        None => {
            return None;
        },
    };
    let durability = match get_mode(u, "durability") {
        Some(v) => v,
        None => {
            return None;
        },
    };
    if u.at_end() {
        Some(SdkCommand::SetKey { key, data, target, durability })
    } else {
        None
    }
}

fn write_command_get(p: &mut Packer, m: &SdkCommand)
    requires
        old(p).ok,
        old(p).out@.len() == 0,
        m is Get,
    ensures
        final(p).ok == command_fits(m@),
        final(p).ok ==> final(p).out@ == enc_command(m@),
{
    proof {
        reveal_strlit("cmd");
        reveal_strlit("Get");
        reveal_strlit("key");
        reveal_strlit("target");
        lemma_short_text_fits("Get"@);
    }
    match m {
        SdkCommand::Get { key, target } => {
            p.len(Sized::Table, 3);
            assert(p.out@ =~= enc_len(Sized::Table, 3));
            put_str(p, "cmd", &String::from_str("Get"));
            put_str(p, "key", key);
            put_opt_str(p, "target", target);
        },
        _ => {},
    }
}

fn read_command_get(u: &mut Unpacker) -> (r: Option<SdkCommand>)
    requires
        old(u).wf(),
    ensures
        r.is_some() == dec_command_get(old(u).rest()).is_some(),
        r.is_some() ==> dec_command_get(old(u).rest()) == Some(r.unwrap()@),
{
    reveal(dec_command_get);
    let key = match get_str(u, "key") {
        Some(v) => v,
        None => {
            return None;
        },
    };
    let target = match get_opt_str(u, "target") {
        Some(v) => v,
        None => {
            return None;
        },
    };
    if u.at_end() {
        Some(SdkCommand::Get { key, target })
    } else {
        None
    }
}

fn write_command_list_keys(p: &mut Packer, m: &SdkCommand)
    requires
        old(p).ok,
        old(p).out@.len() == 0,
        m is ListKeys,
    ensures
        final(p).ok == command_fits(m@),
        final(p).ok ==> final(p).out@ == enc_command(m@),
{
    proof {
        reveal_strlit("cmd");
        reveal_strlit("ListKeys");
        reveal_strlit("pattern");
        lemma_short_text_fits("ListKeys"@);
    }
    match m {
        SdkCommand::ListKeys { pattern } => {
            p.len(Sized::Table, 2);
            assert(p.out@ =~= enc_len(Sized::Table, 2));
            put_str(p, "cmd", &String::from_str("ListKeys"));
            put_str(p, "pattern", pattern);
        },
        _ => {},
    }
}

fn read_command_list_keys(u: &mut Unpacker) -> (r: Option<SdkCommand>)
    requires
        old(u).wf(),
    ensures
        r.is_some() == dec_command_list_keys(old(u).rest()).is_some(),
        r.is_some() ==> dec_command_list_keys(old(u).rest()) == Some(r.unwrap()@),
{
    reveal(dec_command_list_keys);
    let pattern = match get_str(u, "pattern") {
        Some(v) => v,
        None => {
            return None;
        },
    };
    if u.at_end() {
        Some(SdkCommand::ListKeys { pattern })
    } else {
        None
    }
}

fn write_command_poll_connection(p: &mut Packer, m: &SdkCommand)
    requires
        old(p).ok,
        old(p).out@.len() == 0,
        m is PollConnection,
    ensures
        final(p).ok == command_fits(m@),
        final(p).ok ==> final(p).out@ == enc_command(m@),
{
    proof {
        reveal_strlit("cmd");
        reveal_strlit("PollConnection");
        reveal_strlit("addr");
        lemma_short_text_fits("PollConnection"@);
    }
    match m {
        SdkCommand::PollConnection { addr } => {
            p.len(Sized::Table, 2);
            assert(p.out@ =~= enc_len(Sized::Table, 2));
            put_str(p, "cmd", &String::from_str("PollConnection"));
            put_str(p, "addr", addr);
        },
        _ => {},
    }
}

fn read_command_poll_connection(u: &mut Unpacker) -> (r: Option<SdkCommand>)
    requires
        old(u).wf(),
    ensures
        r.is_some() == dec_command_poll_connection(old(u).rest()).is_some(),
        r.is_some() ==> dec_command_poll_connection(old(u).rest()) == Some(r.unwrap()@),
{
    reveal(dec_command_poll_connection);
    let addr = match get_str(u, "addr") {
        Some(v) => v,
        None => {
            return None;
        },
    };
    if u.at_end() {
        Some(SdkCommand::PollConnection { addr })
    } else {
        None
    }
}

fn write_command_stream_start(p: &mut Packer, m: &SdkCommand)
    requires
        old(p).ok,
        old(p).out@.len() == 0,
        m is StreamStart,
    ensures
        final(p).ok == command_fits(m@),
        final(p).ok ==> final(p).out@ == enc_command(m@),
{
    proof {
        reveal_strlit("cmd");
        reveal_strlit("StreamStart");
        reveal_strlit("size_hint");
        lemma_short_text_fits("StreamStart"@);
    }
    match m {
        SdkCommand::StreamStart { size_hint } => {
            p.len(Sized::Table, 2);
            assert(p.out@ =~= enc_len(Sized::Table, 2));
            put_str(p, "cmd", &String::from_str("StreamStart"));
            put_opt_uint(p, "size_hint", size_hint);
        },
        _ => {},
    }
}

fn read_command_stream_start(u: &mut Unpacker) -> (r: Option<SdkCommand>)
    requires
        old(u).wf(),
    ensures
        r.is_some() == dec_command_stream_start(old(u).rest()).is_some(),
        r.is_some() ==> dec_command_stream_start(old(u).rest()) == Some(r.unwrap()@),
{
    reveal(dec_command_stream_start);
    let size_hint = match get_opt_uint(u, "size_hint") {
        Some(v) => v,
        None => {
            return None;
        },
    };
    if u.at_end() {
        Some(SdkCommand::StreamStart { size_hint })
    } else {
        None
    }
}

#[verifier::rlimit(40)]
fn write_command_stream_chunk(p: &mut Packer, m: &SdkCommand)
    requires
        old(p).ok,
        old(p).out@.len() == 0,
        m is StreamChunk,
    ensures
        final(p).ok == command_fits(m@),
        final(p).ok ==> final(p).out@ == enc_command(m@),
{
    proof {
        reveal_strlit("cmd");
        reveal_strlit("StreamChunk");
        reveal_strlit("stream_id");
        reveal_strlit("chunk_seq");
        reveal_strlit("data");
        lemma_short_text_fits("StreamChunk"@);
    }
    match m {
        SdkCommand::StreamChunk { stream_id, chunk_seq, data } => {
            p.len(Sized::Table, 4);
            assert(p.out@ =~= enc_len(Sized::Table, 4));
            put_str(p, "cmd", &String::from_str("StreamChunk"));
            put_uint(p, "stream_id", stream_id);
            put_u32(p, "chunk_seq", chunk_seq);
            put_bin(p, "data", data);
        },
        _ => {},
    }
}

#[verifier::rlimit(40)]
fn read_command_stream_chunk(u: &mut Unpacker) -> (r: Option<SdkCommand>)
    requires
        old(u).wf(),
    ensures
        r.is_some() == dec_command_stream_chunk(old(u).rest()).is_some(),
        r.is_some() ==> dec_command_stream_chunk(old(u).rest()) == Some(r.unwrap()@),
{
    reveal(dec_command_stream_chunk);
    let stream_id = match get_uint(u, "stream_id") {
        Some(v) => v,
        None => {
            return None;
        },
    };
    let chunk_seq = match get_u32(u, "chunk_seq") {
        Some(v) => v,
        None => {
            return None;
        },
    };
    let data = match get_bin(u, "data") {
        Some(v) => v,
        None => {
            return None;
        },
    };
    if u.at_end() {
        Some(SdkCommand::StreamChunk { stream_id, chunk_seq, data })
    } else {
        None
    }
}

#[verifier::rlimit(40)]
fn write_command_stream_finish(p: &mut Packer, m: &SdkCommand)
    requires
        old(p).ok,
        old(p).out@.len() == 0,
        m is StreamFinish,
    ensures
        final(p).ok == command_fits(m@),
        final(p).ok ==> final(p).out@ == enc_command(m@),
{
    proof {
        reveal_strlit("cmd");
        reveal_strlit("StreamFinish");
        reveal_strlit("stream_id");
        reveal_strlit("target");
        reveal_strlit("durability");
        lemma_short_text_fits("StreamFinish"@);
    }
    match m {
        SdkCommand::StreamFinish { stream_id, target, durability } => {
            p.len(Sized::Table, 4);
            assert(p.out@ =~= enc_len(Sized::Table, 4));
            put_str(p, "cmd", &String::from_str("StreamFinish"));
            put_uint(p, "stream_id", stream_id);
            put_opt_str(p, "target", target);
            put_mode(p, "durability", durability);
        },
        _ => {},
    }
}

#[verifier::rlimit(40)]
fn read_command_stream_finish(u: &mut Unpacker) -> (r: Option<SdkCommand>)
    requires
        old(u).wf(),
    ensures
        r.is_some() == dec_command_stream_finish(old(u).rest()).is_some(),
        r.is_some() ==> dec_command_stream_finish(old(u).rest()) == Some(r.unwrap()@),
{
    reveal(dec_command_stream_finish);
    let stream_id = match get_uint(u, "stream_id") {
        Some(v) => v,
        None => {
            return None;
        },
    };
    let target = match get_opt_str(u, "target") {
        Some(v) => v,
        None => {
            return None;
        },
    };
    let durability = match get_mode(u, "durability") {
        Some(v) => v,
        None => {
            return None;
        },
    };
    if u.at_end() {
        Some(SdkCommand::StreamFinish { stream_id, target, durability })
    } else {
        None
    }
}

fn write_command_flush(p: &mut Packer, m: &SdkCommand)
    requires
        old(p).ok,
        old(p).out@.len() == 0,
        m is Flush,
    ensures
        final(p).ok == command_fits(m@),
        final(p).ok ==> final(p).out@ == enc_command(m@),
{
    proof {
        reveal_strlit("cmd");
        reveal_strlit("Flush");
        reveal_strlit("target");
        lemma_short_text_fits("Flush"@);
    }
    match m {
        SdkCommand::Flush { target } => {
            p.len(Sized::Table, 2);
            assert(p.out@ =~= enc_len(Sized::Table, 2));
            put_str(p, "cmd", &String::from_str("Flush"));
            put_opt_str(p, "target", target);
        },
        _ => {},
    }
}

fn read_command_flush(u: &mut Unpacker) -> (r: Option<SdkCommand>)
    requires
        old(u).wf(),
    ensures
        r.is_some() == dec_command_flush(old(u).rest()).is_some(),
        r.is_some() ==> dec_command_flush(old(u).rest()) == Some(r.unwrap()@),
{
    reveal(dec_command_flush);
    let target = match get_opt_str(u, "target") {
        Some(v) => v,
        None => {
            return None;
        },
    };
    if u.at_end() {
        Some(SdkCommand::Flush { target })
    } else {
        None
    }
}

fn write_command_trust_remove(p: &mut Packer, m: &SdkCommand)
    requires
        old(p).ok,
        old(p).out@.len() == 0,
        m is TrustRemove,
    ensures
        final(p).ok == command_fits(m@),
        final(p).ok ==> final(p).out@ == enc_command(m@),
{
    proof {
        reveal_strlit("cmd");
        reveal_strlit("TrustRemove");
        reveal_strlit("key_or_name");
        lemma_short_text_fits("TrustRemove"@);
    }
    match m {
        SdkCommand::TrustRemove { key_or_name } => {
            p.len(Sized::Table, 2);
            assert(p.out@ =~= enc_len(Sized::Table, 2));
            put_str(p, "cmd", &String::from_str("TrustRemove"));
            put_str(p, "key_or_name", key_or_name);
        },
        _ => {},
    }
}

fn read_command_trust_remove(u: &mut Unpacker) -> (r: Option<SdkCommand>)
    requires
        old(u).wf(),
    ensures
        r.is_some() == dec_command_trust_remove(old(u).rest()).is_some(),
        r.is_some() ==> dec_command_trust_remove(old(u).rest()) == Some(r.unwrap()@),
{
    reveal(dec_command_trust_remove);
    let key_or_name = match get_str(u, "key_or_name") {
        Some(v) => v,
        None => {
            return None;
        },
    };
    if u.at_end() {
        Some(SdkCommand::TrustRemove { key_or_name })
    } else {
        None
    }
}

fn write_command_consent_approve(p: &mut Packer, m: &SdkCommand)
    requires
        old(p).ok,
        old(p).out@.len() == 0,
        m is ConsentApprove,
    ensures
        final(p).ok == command_fits(m@),
        final(p).ok ==> final(p).out@ == enc_command(m@),
{
    proof {
        reveal_strlit("cmd");
        reveal_strlit("ConsentApprove");
        reveal_strlit("session_id");
        reveal_strlit("trust_always");
        lemma_short_text_fits("ConsentApprove"@);
    }
    match m {
        SdkCommand::ConsentApprove { session_id, trust_always } => {
            p.len(Sized::Table, 3);
            assert(p.out@ =~= enc_len(Sized::Table, 3));
            put_str(p, "cmd", &String::from_str("ConsentApprove"));
            put_str(p, "session_id", session_id);
            put_bool(p, "trust_always", trust_always);
        },
        _ => {},
    }
}

fn read_command_consent_approve(u: &mut Unpacker) -> (r: Option<SdkCommand>)
    requires
        old(u).wf(),
    ensures
        r.is_some() == dec_command_consent_approve(old(u).rest()).is_some(),
        r.is_some() ==> dec_command_consent_approve(old(u).rest()) == Some(r.unwrap()@),
{
    reveal(dec_command_consent_approve);
    let session_id = match get_str(u, "session_id") {
        Some(v) => v,
        None => {
            return None;
        },
    };
    let trust_always = match get_bool(u, "trust_always") {
        Some(v) => v,
        None => {
            return None;
        },
    };
    if u.at_end() {
        Some(SdkCommand::ConsentApprove { session_id, trust_always })
    } else {
        None
    }
}

fn write_command_consent_deny(p: &mut Packer, m: &SdkCommand)
    requires
        old(p).ok,
        old(p).out@.len() == 0,
        m is ConsentDeny,
    ensures
        final(p).ok == command_fits(m@),
        final(p).ok ==> final(p).out@ == enc_command(m@),
{
    proof {
        reveal_strlit("cmd");
        reveal_strlit("ConsentDeny");
        reveal_strlit("session_id");
        lemma_short_text_fits("ConsentDeny"@);
    }
    match m {
        SdkCommand::ConsentDeny { session_id } => {
            p.len(Sized::Table, 2);
            assert(p.out@ =~= enc_len(Sized::Table, 2));
            put_str(p, "cmd", &String::from_str("ConsentDeny"));
            put_str(p, "session_id", session_id);
        },
        _ => {},
    }
}

fn read_command_consent_deny(u: &mut Unpacker) -> (r: Option<SdkCommand>)
    requires
        old(u).wf(),
    ensures
        r.is_some() == dec_command_consent_deny(old(u).rest()).is_some(),
        r.is_some() ==> dec_command_consent_deny(old(u).rest()) == Some(r.unwrap()@),
{
    reveal(dec_command_consent_deny);
    let session_id = match get_str(u, "session_id") {
        Some(v) => v,
        None => {
            return None;
        },
    };
    if u.at_end() {
        Some(SdkCommand::ConsentDeny { session_id })
    } else {
        None
    }
}

fn write_command_name(p: &mut Packer, name: &str)
    requires
        old(p).ok,
        old(p).out@.len() == 0,
        name@.len() <= 1000,
    ensures
        final(p).ok,
        final(p).out@ == enc_len(Sized::Table, 1) + entry("cmd"@, enc_str(name@)),
{
    proof {
        reveal_strlit("cmd");
        lemma_short_text_fits(name@);
    }
    p.len(Sized::Table, 1);
    assert(p.out@ =~= enc_len(Sized::Table, 1));
    put_str(p, "cmd", &String::from_str(name));
}

/// The bytes of a command, as they travel in a frame of the control
/// socket; nothing where a text, a byte string or a list of it is too
/// long to be written.
#[verifier::rlimit(40)]
pub fn encode_command(m: &SdkCommand) -> (bytes: Option<Vec<u8>>)
    ensures
        bytes.is_some() == command_fits(m@),
        bytes.is_some() ==> bytes.unwrap()@ == enc_command(m@),
{
    let mut p = Packer::new();
    match m {
        SdkCommand::Store { .. } => {
            write_command_store(&mut p, m);
        },
        SdkCommand::StoreRemote { .. } => {
            write_command_store_remote(&mut p, m);
        },
        SdkCommand::Load { .. } => {
            write_command_load(&mut p, m);
        },
        SdkCommand::Free { .. } => {
            write_command_free(&mut p, m);
        },
        SdkCommand::ListPeers => {
            proof {
                reveal_strlit("ListPeers");
            }
            write_command_name(&mut p, "ListPeers");
        },
        SdkCommand::Connect { .. } => {
            write_command_connect(&mut p, m);
        },
        SdkCommand::UpdatePeerQuota { .. } => {
            write_command_update_peer_quota(&mut p, m);
        },
        SdkCommand::Disconnect { .. } => {
            write_command_disconnect(&mut p, m);
        },
        SdkCommand::SetKey { .. } => {
            write_command_set_key(&mut p, m);
        },
        SdkCommand::Get { .. } => {
            write_command_get(&mut p, m);
        },
        SdkCommand::ListKeys { .. } => {
            write_command_list_keys(&mut p, m);
        },
        SdkCommand::Stat => {
            proof {
                reveal_strlit("Stat");
            }
            write_command_name(&mut p, "Stat");
        },
        SdkCommand::PollConnection { .. } => {
            write_command_poll_connection(&mut p, m);
        },
        SdkCommand::StreamStart { .. } => {
            write_command_stream_start(&mut p, m);
        },
        SdkCommand::StreamChunk { .. } => {
            write_command_stream_chunk(&mut p, m);
        },
        SdkCommand::StreamFinish { .. } => {
            write_command_stream_finish(&mut p, m);
        },
        SdkCommand::Flush { .. } => {
            write_command_flush(&mut p, m);
        },
        SdkCommand::TrustList => {
            proof {
                reveal_strlit("TrustList");
            }
            write_command_name(&mut p, "TrustList");
        },
        SdkCommand::TrustRemove { .. } => {
            write_command_trust_remove(&mut p, m);
        },
        SdkCommand::ConsentList => {
            proof {
                reveal_strlit("ConsentList");
            }
            write_command_name(&mut p, "ConsentList");
        },
        SdkCommand::ConsentApprove { .. } => {
            write_command_consent_approve(&mut p, m);
        },
        SdkCommand::ConsentDeny { .. } => {
            write_command_consent_deny(&mut p, m);
        },
    }
    if p.ok {
        Some(p.out)
    } else {
        None
    }
}

/// The command that the payload of a frame of the control socket holds.
#[verifier::rlimit(40)]
pub fn decode_command(bytes: &[u8]) -> (r: Option<SdkCommand>)
    ensures
        r.is_some() == dec_command(bytes@).is_some(),
        r.is_some() ==> dec_command(bytes@) == Some(r.unwrap()@),
{
    let mut u = Unpacker::new(bytes);
    let n = match u.len(Sized::Table) {
        Some(n) => n,
        None => {
            return None;
        },
    };
    let name = match get_str(&mut u, "cmd") {
        Some(t) => t,
        None => {
            return None;
        },
    };
    if same_text(name.as_str(), "Store") {
        if n == 3 {
            read_command_store(&mut u)
        } else {
            None
        }
    } else if same_text(name.as_str(), "StoreRemote") {
        if n == 4 {
            read_command_store_remote(&mut u)
        } else {
            None
        }
    } else if same_text(name.as_str(), "Load") {
        if n == 2 {
            read_command_load(&mut u)
        } else {
            None
        }
    } else if same_text(name.as_str(), "Free") {
        if n == 2 {
            read_command_free(&mut u)
        } else {
            None
        }
    } else if same_text(name.as_str(), "ListPeers") {
        if n == 1 && u.at_end() {
            Some(SdkCommand::ListPeers)
        } else {
            None
        }
    } else if same_text(name.as_str(), "Connect") {
        if n == 3 {
            read_command_connect(&mut u)
        } else {
            None
        }
    } else if same_text(name.as_str(), "UpdatePeerQuota") {
        if n == 3 {
            read_command_update_peer_quota(&mut u)
        } else {
            None
        }
    } else if same_text(name.as_str(), "Disconnect") {
        if n == 2 {
            read_command_disconnect(&mut u)
        } else {
            None
        }
    } else if same_text(name.as_str(), "Set") {
        if n == 5 {
            read_command_set_key(&mut u)
        } else {
            None
        }
    } else if same_text(name.as_str(), "Get") {
        if n == 3 {
            read_command_get(&mut u)
        } else {
            None
        }
    } else if same_text(name.as_str(), "ListKeys") {
        if n == 2 {
            read_command_list_keys(&mut u)
        } else {
            None
        }
    } else if same_text(name.as_str(), "Stat") {
        if n == 1 && u.at_end() {
            Some(SdkCommand::Stat)
        } else {
            None
        }
    } else if same_text(name.as_str(), "PollConnection") {
        if n == 2 {
            read_command_poll_connection(&mut u)
        } else {
            None
        }
    } else if same_text(name.as_str(), "StreamStart") {
        if n == 2 {
            read_command_stream_start(&mut u)
        } else {
            None
        }
    } else if same_text(name.as_str(), "StreamChunk") {
        if n == 4 {
            read_command_stream_chunk(&mut u)
        } else {
            None
        }
    } else if same_text(name.as_str(), "StreamFinish") {
        if n == 4 {
            read_command_stream_finish(&mut u)
        } else {
            None
        }
    } else if same_text(name.as_str(), "Flush") {
        if n == 2 {
            read_command_flush(&mut u)
        } else {
            None
        }
    } else if same_text(name.as_str(), "TrustList") {
        if n == 1 && u.at_end() {
            Some(SdkCommand::TrustList)
        } else {
            None
        }
    } else if same_text(name.as_str(), "TrustRemove") {
        if n == 2 {
            read_command_trust_remove(&mut u)
        } else {
            None
        }
    } else if same_text(name.as_str(), "ConsentList") {
        if n == 1 && u.at_end() {
            Some(SdkCommand::ConsentList)
        } else {
            None
        }
    } else if same_text(name.as_str(), "ConsentApprove") {
        if n == 3 {
            read_command_consent_approve(&mut u)
        } else {
            None
        }
    } else if same_text(name.as_str(), "ConsentDeny") {
        if n == 2 {
            read_command_consent_deny(&mut u)
        } else {
            None
        }
    } else {
        None
    }
}

/// The bytes of an answer: a map that starts with the name of the
/// message under `res` and goes on with its fields, each under its name.
pub open spec fn enc_response(m: ResponseView) -> Seq<u8> {
    match m {
        ResponseView::Stored { id } => {
            enc_len(Sized::Table, 2)
                + entry("res"@, enc_str("Stored"@))
                + entry("id"@, enc_id(id))
        },
        ResponseView::Loaded { data } => {
            enc_len(Sized::Table, 2)
                + entry("res"@, enc_str("Loaded"@))
                + entry("data"@, enc_bin(data))
        },
        ResponseView::Success => {
            enc_len(Sized::Table, 1)
                + entry("res"@, enc_str("Success"@))
        },
        ResponseView::List { items } => {
            enc_len(Sized::Table, 2)
                + entry("res"@, enc_str("List"@))
                + entry("items"@, enc_texts(items))
        },
        ResponseView::PeerList { peers } => {
            enc_len(Sized::Table, 2)
                + entry("res"@, enc_str("PeerList"@))
                + entry("peers"@, enc_peers(peers))
        },
        ResponseView::PeerConnected { metadata } => {
            enc_len(Sized::Table, 2)
                + entry("res"@, enc_str("PeerConnected"@))
                + entry("metadata"@, enc_peer(metadata))
        },
        ResponseView::Error { msg } => {
            enc_len(Sized::Table, 2)
                + entry("res"@, enc_str("Error"@))
                + entry("msg"@, enc_str(msg))
        },
        ResponseView::Status { blocks, peers, memory_usage } => {
            enc_len(Sized::Table, 4)
                + entry("res"@, enc_str("Status"@))
                + entry("blocks"@, enc_usize(blocks))
                + entry("peers"@, enc_usize(peers))
                + entry("memory_usage"@, enc_usize(memory_usage))
        },
        ResponseView::StreamStarted { stream_id } => {
            enc_len(Sized::Table, 2)
                + entry("res"@, enc_str("StreamStarted"@))
                + entry("stream_id"@, enc_uint(stream_id))
        },
        ResponseView::FlushSuccess => {
            enc_len(Sized::Table, 1)
                + entry("res"@, enc_str("FlushSuccess"@))
        },
        ResponseView::TrustedList { items } => {
            enc_len(Sized::Table, 2)
                + entry("res"@, enc_str("TrustedList"@))
                + entry("items"@, enc_devices(items))
        },
        ResponseView::ConsentList { items } => {
            enc_len(Sized::Table, 2)
                + entry("res"@, enc_str("ConsentList"@))
                + entry("items"@, enc_consents(items))
        },
        ResponseView::ConnectionStatus { state, msg } => {
            enc_len(Sized::Table, 3)
                + entry("res"@, enc_str("ConnectionStatus"@))
                + entry("state"@, enc_str(state))
                + entry("msg"@, enc_opt_str(msg))
        },
    }
}

/// Whether the texts, byte strings and lists of an answer are short
/// enough to be written.
pub open spec fn response_fits(m: ResponseView) -> bool {
    match m {
        ResponseView::Loaded { data } => bin_fits(data),
        ResponseView::List { items } => texts_fit(items),
        ResponseView::PeerList { peers } => peers_fit(peers),
        ResponseView::PeerConnected { metadata } => peer_fits(metadata),
        ResponseView::Error { msg } => text_fits(msg),
        ResponseView::TrustedList { items } => devices_fit(items),
        ResponseView::ConsentList { items } => consents_fit(items),
        ResponseView::ConnectionStatus { state, msg } => text_fits(state) && opt_text_fits(msg),
        _ => true,
    }
}

/// The fields of `Stored`.
#[verifier::opaque]
pub open spec fn dec_response_stored(s: Seq<u8>) -> Option<ResponseView> {
    match id_field(s, "id"@) {
        None => None,
        Some((id, r0)) => if r0.len() == 0 {
            Some(ResponseView::Stored { id })
        } else {
            None
        },
    }
}

/// The fields of `Loaded`.
#[verifier::opaque]
pub open spec fn dec_response_loaded(s: Seq<u8>) -> Option<ResponseView> {
    match bin_field(s, "data"@) {
        None => None,
        Some((data, r0)) => if r0.len() == 0 {
            Some(ResponseView::Loaded { data })
        } else {
            None
        },
    }
}

/// The fields of `List`.
#[verifier::opaque]
pub open spec fn dec_response_list(s: Seq<u8>) -> Option<ResponseView> {
    match texts_field(s, "items"@) {
        None => None,
        Some((items, r0)) => if r0.len() == 0 {
            Some(ResponseView::List { items })
        } else {
            None
        },
    }
}

/// The fields of `PeerList`.
#[verifier::opaque]
pub open spec fn dec_response_peer_list(s: Seq<u8>) -> Option<ResponseView> {
    match peers_field(s, "peers"@) {
        None => None,
        Some((peers, r0)) => if r0.len() == 0 {
            Some(ResponseView::PeerList { peers })
        } else {
            None
        },
    }
}

/// The fields of `PeerConnected`.
#[verifier::opaque]
pub open spec fn dec_response_peer_connected(s: Seq<u8>) -> Option<ResponseView> {
    match peer_field(s, "metadata"@) {
        None => None,
        Some((metadata, r0)) => if r0.len() == 0 {
            Some(ResponseView::PeerConnected { metadata })
        } else {
            None
        },
    }
}

/// The fields of `Error`.
#[verifier::opaque]
pub open spec fn dec_response_error(s: Seq<u8>) -> Option<ResponseView> {
    match str_field(s, "msg"@) {
        None => None,
        Some((msg, r0)) => if r0.len() == 0 {
            Some(ResponseView::Error { msg })
        } else {
            None
        },
    }
}

/// The fields of `Status`.
#[verifier::opaque]
pub open spec fn dec_response_status(s: Seq<u8>) -> Option<ResponseView> {
    match usize_field(s, "blocks"@) {
        None => None,
        Some((blocks, r0)) => match usize_field(r0, "peers"@) {
            None => None,
            Some((peers, r1)) => match usize_field(r1, "memory_usage"@) {
                None => None,
                Some((memory_usage, r2)) => if r2.len() == 0 {
                    Some(ResponseView::Status { blocks, peers, memory_usage })
                } else {
                    None
                },
            },
        },
    }
}

/// The fields of `StreamStarted`.
#[verifier::opaque]
pub open spec fn dec_response_stream_started(s: Seq<u8>) -> Option<ResponseView> {
    match uint_field(s, "stream_id"@) {
        None => None,
        Some((stream_id, r0)) => if r0.len() == 0 {
            Some(ResponseView::StreamStarted { stream_id })
        } else {
            None
        },
    }
}

/// The fields of `TrustedList`.
#[verifier::opaque]
pub open spec fn dec_response_trusted_list(s: Seq<u8>) -> Option<ResponseView> {
    match devices_field(s, "items"@) {
        None => None,
        Some((items, r0)) => if r0.len() == 0 {
            Some(ResponseView::TrustedList { items })
        } else {
            None
        },
    }
}

/// The fields of `ConsentList`.
#[verifier::opaque]
pub open spec fn dec_response_consent_list(s: Seq<u8>) -> Option<ResponseView> {
    match consents_field(s, "items"@) {
        None => None,
        Some((items, r0)) => if r0.len() == 0 {
            Some(ResponseView::ConsentList { items })
        } else {
            None
        },
    }
}

/// The fields of `ConnectionStatus`.
#[verifier::opaque]
pub open spec fn dec_response_connection_status(s: Seq<u8>) -> Option<ResponseView> {
    match str_field(s, "state"@) {
        None => None,
        Some((state, r0)) => match opt_str_field(r0, "msg"@) {
            None => None,
            Some((msg, r1)) => if r1.len() == 0 {
                Some(ResponseView::ConnectionStatus { state, msg })
            } else {
                None
            },
        },
    }
}

/// The answer with this name and this many entries whose fields `s` holds.
pub open spec fn dec_response_named(name: Seq<char>, n: u32, s: Seq<u8>) -> Option<ResponseView> {
    if name == "Stored"@ {
        if n == 2 {
            dec_response_stored(s)
        } else {
            None
        }
    } else if name == "Loaded"@ {
        if n == 2 {
            dec_response_loaded(s)
        } else {
            None
        }
    } else if name == "Success"@ {
        if n == 1 && s.len() == 0 {
            Some(ResponseView::Success)
        } else {
            None
        }
    } else if name == "List"@ {
        if n == 2 {
            dec_response_list(s)
        } else {
            None
        }
    } else if name == "PeerList"@ {
        if n == 2 {
            dec_response_peer_list(s)
        } else {
            None
        }
    } else if name == "PeerConnected"@ {
        if n == 2 {
            dec_response_peer_connected(s)
        } else {
            None
        }
    } else if name == "Error"@ {
        if n == 2 {
            dec_response_error(s)
        } else {
            None
        }
    } else if name == "Status"@ {
        if n == 4 {
            dec_response_status(s)
        } else {
            None
        }
    } else if name == "StreamStarted"@ {
        if n == 2 {
            dec_response_stream_started(s)
        } else {
            None
        }
    } else if name == "FlushSuccess"@ {
        if n == 1 && s.len() == 0 {
            Some(ResponseView::FlushSuccess)
        } else {
            None
        }
    } else if name == "TrustedList"@ {
        if n == 2 {
            dec_response_trusted_list(s)
        } else {
            None
        }
    } else if name == "ConsentList"@ {
        if n == 2 {
            dec_response_consent_list(s)
        } else {
            None
        }
    } else if name == "ConnectionStatus"@ {
        if n == 3 {
            dec_response_connection_status(s)
        } else {
            None
        }
    } else {
        None
    }
}

/// The answer that a byte string holds.
pub open spec fn dec_response(s: Seq<u8>) -> Option<ResponseView> {
    match parse_len(Sized::Table, s) {
        Some((n, r0)) => match str_field(r0, "res"@) {
            Some((name, r1)) => dec_response_named(name, n, r1),
            None => None,
        },
        None => None,
    }
}

proof fn lemma_response_stored(m: ResponseView)
    requires
        m is Stored,
        response_fits(m),
    ensures
        dec_response(enc_response(m)) == Some(m),
{
    reveal(dec_response_stored);
    reveal_strlit("res");
    reveal_strlit("Stored");
    reveal_strlit("id");
    lemma_short_text_fits("Stored"@);
    let id = m->Stored_id;
    let t1 = Seq::<u8>::empty();
    let t0 = entry("id"@, enc_id(id)) + t1;
    let tagged = entry("res"@, enc_str("Stored"@)) + t0;
    let h = enc_len(Sized::Table, 2);
    let h0 = h + entry("res"@, enc_str("Stored"@));
    let h1 = h0 + entry("id"@, enc_id(id));
    assert(h1 + t1 =~= h1);
    lemma_join(h0, entry("id"@, enc_id(id)), t1);
    lemma_join(h, entry("res"@, enc_str("Stored"@)), t0);
    assert(enc_response(m) == h1);
    lemma_parse_len(Sized::Table, 2, tagged);
    lemma_str_field("res"@, "Stored"@, t0);
    lemma_id_field("id"@, id, t1);
}

proof fn lemma_response_loaded(m: ResponseView)
    requires
        m is Loaded,
        response_fits(m),
    ensures
        dec_response(enc_response(m)) == Some(m),
{
    reveal(dec_response_loaded);
    reveal_strlit("res");
    reveal_strlit("Loaded");
    reveal_strlit("data");
    reveal_strlit("Stored");
    lemma_short_text_fits("Loaded"@);
    assert("Loaded"@[0] != "Stored"@[0]);
    let data = m->Loaded_data;
    let t1 = Seq::<u8>::empty();
    let t0 = entry("data"@, enc_bin(data)) + t1;
    let tagged = entry("res"@, enc_str("Loaded"@)) + t0;
    let h = enc_len(Sized::Table, 2);
    let h0 = h + entry("res"@, enc_str("Loaded"@));
    let h1 = h0 + entry("data"@, enc_bin(data));
    assert(h1 + t1 =~= h1);
    lemma_join(h0, entry("data"@, enc_bin(data)), t1);
    lemma_join(h, entry("res"@, enc_str("Loaded"@)), t0);
    assert(enc_response(m) == h1);
    lemma_parse_len(Sized::Table, 2, tagged);
    lemma_str_field("res"@, "Loaded"@, t0);
    lemma_bin_field("data"@, data, t1);
}

proof fn lemma_response_success(m: ResponseView)
    requires
        m is Success,
        response_fits(m),
    ensures
        dec_response(enc_response(m)) == Some(m),
{
    reveal_strlit("res");
    reveal_strlit("Success");
    reveal_strlit("Stored");
    reveal_strlit("Loaded");
    lemma_short_text_fits("Success"@);
    assert("Success"@.len() != "Stored"@.len());
    assert("Success"@.len() != "Loaded"@.len());
    let t0 = Seq::<u8>::empty();
    let tagged = entry("res"@, enc_str("Success"@)) + t0;
    let h = enc_len(Sized::Table, 1);
    let h0 = h + entry("res"@, enc_str("Success"@));
    assert(h0 + t0 =~= h0);
    lemma_join(h, entry("res"@, enc_str("Success"@)), t0);
    assert(enc_response(m) == h0);
    lemma_parse_len(Sized::Table, 1, tagged);
    lemma_str_field("res"@, "Success"@, t0);
}

proof fn lemma_response_list(m: ResponseView)
    requires
        m is List,
        response_fits(m),
    ensures
        dec_response(enc_response(m)) == Some(m),
{
    reveal(dec_response_list);
    reveal_strlit("res");
    reveal_strlit("List");
    reveal_strlit("items");
    reveal_strlit("Stored");
    reveal_strlit("Loaded");
    reveal_strlit("Success");
    lemma_short_text_fits("List"@);
    assert("List"@.len() != "Stored"@.len());
    assert("List"@.len() != "Loaded"@.len());
    assert("List"@.len() != "Success"@.len());
    let items = m->List_items;
    let t1 = Seq::<u8>::empty();
    let t0 = entry("items"@, enc_texts(items)) + t1;
    let tagged = entry("res"@, enc_str("List"@)) + t0;
    let h = enc_len(Sized::Table, 2);
    let h0 = h + entry("res"@, enc_str("List"@));
    let h1 = h0 + entry("items"@, enc_texts(items));
    assert(h1 + t1 =~= h1);
    lemma_join(h0, entry("items"@, enc_texts(items)), t1);
    lemma_join(h, entry("res"@, enc_str("List"@)), t0);
    assert(enc_response(m) == h1);
    lemma_parse_len(Sized::Table, 2, tagged);
    lemma_str_field("res"@, "List"@, t0);
    lemma_texts_field("items"@, items, t1);
}

proof fn lemma_response_peer_list(m: ResponseView)
    requires
        m is PeerList,
        response_fits(m),
    ensures
        dec_response(enc_response(m)) == Some(m),
{
    reveal(dec_response_peer_list);
    reveal_strlit("res");
    reveal_strlit("PeerList");
    reveal_strlit("peers");
    reveal_strlit("Stored");
    reveal_strlit("Loaded");
    reveal_strlit("Success");
    reveal_strlit("List");
    lemma_short_text_fits("PeerList"@);
    assert("PeerList"@.len() != "Stored"@.len());
    assert("PeerList"@.len() != "Loaded"@.len());
    assert("PeerList"@.len() != "Success"@.len());
    assert("PeerList"@.len() != "List"@.len());
    let peers = m->PeerList_peers;
    let t1 = Seq::<u8>::empty();
    let t0 = entry("peers"@, enc_peers(peers)) + t1;
    let tagged = entry("res"@, enc_str("PeerList"@)) + t0;
    let h = enc_len(Sized::Table, 2);
    let h0 = h + entry("res"@, enc_str("PeerList"@));
    let h1 = h0 + entry("peers"@, enc_peers(peers));
    assert(h1 + t1 =~= h1);
    lemma_join(h0, entry("peers"@, enc_peers(peers)), t1);
    lemma_join(h, entry("res"@, enc_str("PeerList"@)), t0);
    assert(enc_response(m) == h1);
    lemma_parse_len(Sized::Table, 2, tagged);
    lemma_str_field("res"@, "PeerList"@, t0);
    lemma_peers_field("peers"@, peers, t1);
}

proof fn lemma_response_peer_connected(m: ResponseView)
    requires
        m is PeerConnected,
        response_fits(m),
    ensures
        dec_response(enc_response(m)) == Some(m),
{
    reveal(dec_response_peer_connected);
    reveal_strlit("res");
    reveal_strlit("PeerConnected");
    reveal_strlit("metadata");
    reveal_strlit("Stored");
    reveal_strlit("Loaded");
    reveal_strlit("Success");
    reveal_strlit("List");
    reveal_strlit("PeerList");
    lemma_short_text_fits("PeerConnected"@);
    assert("PeerConnected"@.len() != "Stored"@.len());
    assert("PeerConnected"@.len() != "Loaded"@.len());
    assert("PeerConnected"@.len() != "Success"@.len());
    assert("PeerConnected"@.len() != "List"@.len());
    assert("PeerConnected"@.len() != "PeerList"@.len());
    let metadata = m->PeerConnected_metadata;
    let t1 = Seq::<u8>::empty();
    let t0 = entry("metadata"@, enc_peer(metadata)) + t1;
    let tagged = entry("res"@, enc_str("PeerConnected"@)) + t0;
    let h = enc_len(Sized::Table, 2);
    let h0 = h + entry("res"@, enc_str("PeerConnected"@));
    let h1 = h0 + entry("metadata"@, enc_peer(metadata));
    assert(h1 + t1 =~= h1);
    lemma_join(h0, entry("metadata"@, enc_peer(metadata)), t1);
    lemma_join(h, entry("res"@, enc_str("PeerConnected"@)), t0);
    assert(enc_response(m) == h1);
    lemma_parse_len(Sized::Table, 2, tagged);
    lemma_str_field("res"@, "PeerConnected"@, t0);
    lemma_peer_field("metadata"@, metadata, t1);
}

proof fn lemma_response_error(m: ResponseView)
    requires
        m is Error,
        response_fits(m),
    ensures
        dec_response(enc_response(m)) == Some(m),
{
    reveal(dec_response_error);
    reveal_strlit("res");
    reveal_strlit("Error");
    reveal_strlit("msg");
    reveal_strlit("Stored");
    reveal_strlit("Loaded");
    reveal_strlit("Success");
    reveal_strlit("List");
    reveal_strlit("PeerList");
    reveal_strlit("PeerConnected");
    lemma_short_text_fits("Error"@);
    assert("Error"@.len() != "Stored"@.len());
    assert("Error"@.len() != "Loaded"@.len());
    assert("Error"@.len() != "Success"@.len());
    assert("Error"@.len() != "List"@.len());
    assert("Error"@.len() != "PeerList"@.len());
    assert("Error"@.len() != "PeerConnected"@.len());
    let msg = m->Error_msg;
    let t1 = Seq::<u8>::empty();
    let t0 = entry("msg"@, enc_str(msg)) + t1;
    let tagged = entry("res"@, enc_str("Error"@)) + t0;
    let h = enc_len(Sized::Table, 2);
    let h0 = h + entry("res"@, enc_str("Error"@));
    let h1 = h0 + entry("msg"@, enc_str(msg));
    assert(h1 + t1 =~= h1);
    lemma_join(h0, entry("msg"@, enc_str(msg)), t1);
    lemma_join(h, entry("res"@, enc_str("Error"@)), t0);
    assert(enc_response(m) == h1);
    lemma_parse_len(Sized::Table, 2, tagged);
    lemma_str_field("res"@, "Error"@, t0);
    lemma_str_field("msg"@, msg, t1);
}

#[verifier::rlimit(50)]
proof fn lemma_response_status(m: ResponseView)
    requires
        m is Status,
        response_fits(m),
    ensures
        dec_response(enc_response(m)) == Some(m),
{
    reveal(dec_response_status);
    reveal_strlit("res");
    reveal_strlit("Status");
    reveal_strlit("blocks");
    reveal_strlit("peers");
    reveal_strlit("memory_usage");
    reveal_strlit("Stored");
    reveal_strlit("Loaded");
    reveal_strlit("Success");
    reveal_strlit("List");
    reveal_strlit("PeerList");
    reveal_strlit("PeerConnected");
    reveal_strlit("Error");
    lemma_short_text_fits("Status"@);
    assert("Status"@[2] != "Stored"@[2]);
    assert("Status"@[0] != "Loaded"@[0]);
    assert("Status"@.len() != "Success"@.len());
    assert("Status"@.len() != "List"@.len());
    assert("Status"@.len() != "PeerList"@.len());
    assert("Status"@.len() != "PeerConnected"@.len());
    assert("Status"@.len() != "Error"@.len());
    let blocks = m->Status_blocks;
    let peers = m->Status_peers;
    let memory_usage = m->Status_memory_usage;
    let t3 = Seq::<u8>::empty();
    let t2 = entry("memory_usage"@, enc_usize(memory_usage)) + t3;
    let t1 = entry("peers"@, enc_usize(peers)) + t2;
    let t0 = entry("blocks"@, enc_usize(blocks)) + t1;
    let tagged = entry("res"@, enc_str("Status"@)) + t0;
    let h = enc_len(Sized::Table, 4);
    let h0 = h + entry("res"@, enc_str("Status"@));
    let h1 = h0 + entry("blocks"@, enc_usize(blocks));
    let h2 = h1 + entry("peers"@, enc_usize(peers));
    let h3 = h2 + entry("memory_usage"@, enc_usize(memory_usage));
    assert(h3 + t3 =~= h3);
    lemma_join(h2, entry("memory_usage"@, enc_usize(memory_usage)), t3);
    lemma_join(h1, entry("peers"@, enc_usize(peers)), t2);
    lemma_join(h0, entry("blocks"@, enc_usize(blocks)), t1);
    lemma_join(h, entry("res"@, enc_str("Status"@)), t0);
    assert(enc_response(m) == h3);
    lemma_parse_len(Sized::Table, 4, tagged);
    lemma_str_field("res"@, "Status"@, t0);
    lemma_usize_field("blocks"@, blocks, t1);
    lemma_usize_field("peers"@, peers, t2);
    lemma_usize_field("memory_usage"@, memory_usage, t3);
}

proof fn lemma_response_stream_started(m: ResponseView)
    requires
        m is StreamStarted,
        response_fits(m),
    ensures
        dec_response(enc_response(m)) == Some(m),
{
    reveal(dec_response_stream_started);
    reveal_strlit("res");
    reveal_strlit("StreamStarted");
    reveal_strlit("stream_id");
    reveal_strlit("Stored");
    reveal_strlit("Loaded");
    reveal_strlit("Success");
    reveal_strlit("List");
    reveal_strlit("PeerList");
    reveal_strlit("PeerConnected");
    reveal_strlit("Error");
    reveal_strlit("Status");
    lemma_short_text_fits("StreamStarted"@);
    assert("StreamStarted"@.len() != "Stored"@.len());
    assert("StreamStarted"@.len() != "Loaded"@.len());
    assert("StreamStarted"@.len() != "Success"@.len());
    assert("StreamStarted"@.len() != "List"@.len());
    assert("StreamStarted"@.len() != "PeerList"@.len());
    assert("StreamStarted"@[0] != "PeerConnected"@[0]);
    assert("StreamStarted"@.len() != "Error"@.len());
    assert("StreamStarted"@.len() != "Status"@.len());
    let stream_id = m->StreamStarted_stream_id;
    let t1 = Seq::<u8>::empty();
    let t0 = entry("stream_id"@, enc_uint(stream_id)) + t1;
    let tagged = entry("res"@, enc_str("StreamStarted"@)) + t0;
    let h = enc_len(Sized::Table, 2);
    let h0 = h + entry("res"@, enc_str("StreamStarted"@));
    let h1 = h0 + entry("stream_id"@, enc_uint(stream_id));
    assert(h1 + t1 =~= h1);
    lemma_join(h0, entry("stream_id"@, enc_uint(stream_id)), t1);
    lemma_join(h, entry("res"@, enc_str("StreamStarted"@)), t0);
    assert(enc_response(m) == h1);
    lemma_parse_len(Sized::Table, 2, tagged);
    lemma_str_field("res"@, "StreamStarted"@, t0);
    lemma_uint_field("stream_id"@, stream_id, t1);
}

proof fn lemma_response_flush_success(m: ResponseView)
    requires
        m is FlushSuccess,
        response_fits(m),
    ensures
        dec_response(enc_response(m)) == Some(m),
{
    reveal_strlit("res");
    reveal_strlit("FlushSuccess");
    reveal_strlit("Stored");
    reveal_strlit("Loaded");
    reveal_strlit("Success");
    reveal_strlit("List");
    reveal_strlit("PeerList");
    reveal_strlit("PeerConnected");
    reveal_strlit("Error");
    reveal_strlit("Status");
    reveal_strlit("StreamStarted");
    lemma_short_text_fits("FlushSuccess"@);
    assert("FlushSuccess"@.len() != "Stored"@.len());
    assert("FlushSuccess"@.len() != "Loaded"@.len());
    assert("FlushSuccess"@.len() != "Success"@.len());
    assert("FlushSuccess"@.len() != "List"@.len());
    assert("FlushSuccess"@.len() != "PeerList"@.len());
    assert("FlushSuccess"@.len() != "PeerConnected"@.len());
    assert("FlushSuccess"@.len() != "Error"@.len());
    assert("FlushSuccess"@.len() != "Status"@.len());
    assert("FlushSuccess"@.len() != "StreamStarted"@.len());
    let t0 = Seq::<u8>::empty();
    let tagged = entry("res"@, enc_str("FlushSuccess"@)) + t0;
    let h = enc_len(Sized::Table, 1);
    let h0 = h + entry("res"@, enc_str("FlushSuccess"@));
    assert(h0 + t0 =~= h0);
    lemma_join(h, entry("res"@, enc_str("FlushSuccess"@)), t0);
    assert(enc_response(m) == h0);
    lemma_parse_len(Sized::Table, 1, tagged);
    lemma_str_field("res"@, "FlushSuccess"@, t0);
}

proof fn lemma_response_trusted_list(m: ResponseView)
    requires
        m is TrustedList,
        response_fits(m),
    ensures
        dec_response(enc_response(m)) == Some(m),
{
    reveal(dec_response_trusted_list);
    reveal_strlit("res");
    reveal_strlit("TrustedList");
    reveal_strlit("items");
    reveal_strlit("Stored");
    reveal_strlit("Loaded");
    reveal_strlit("Success");
    reveal_strlit("List");
    reveal_strlit("PeerList");
    reveal_strlit("PeerConnected");
    reveal_strlit("Error");
    reveal_strlit("Status");
    reveal_strlit("StreamStarted");
    reveal_strlit("FlushSuccess");
    lemma_short_text_fits("TrustedList"@);
    assert("TrustedList"@.len() != "Stored"@.len());
    assert("TrustedList"@.len() != "Loaded"@.len());
    assert("TrustedList"@.len() != "Success"@.len());
    assert("TrustedList"@.len() != "List"@.len());
    assert("TrustedList"@.len() != "PeerList"@.len());
    assert("TrustedList"@.len() != "PeerConnected"@.len());
    assert("TrustedList"@.len() != "Error"@.len());
    assert("TrustedList"@.len() != "Status"@.len());
    assert("TrustedList"@.len() != "StreamStarted"@.len());
    assert("TrustedList"@.len() != "FlushSuccess"@.len());
    let items = m->TrustedList_items;
    let t1 = Seq::<u8>::empty();
    let t0 = entry("items"@, enc_devices(items)) + t1;
    let tagged = entry("res"@, enc_str("TrustedList"@)) + t0;
    let h = enc_len(Sized::Table, 2);
    let h0 = h + entry("res"@, enc_str("TrustedList"@));
    let h1 = h0 + entry("items"@, enc_devices(items));
    assert(h1 + t1 =~= h1);
    lemma_join(h0, entry("items"@, enc_devices(items)), t1);
    lemma_join(h, entry("res"@, enc_str("TrustedList"@)), t0);
    assert(enc_response(m) == h1);
    lemma_parse_len(Sized::Table, 2, tagged);
    lemma_str_field("res"@, "TrustedList"@, t0);
    lemma_devices_field("items"@, items, t1);
}

proof fn lemma_response_consent_list(m: ResponseView)
    requires
        m is ConsentList,
        response_fits(m),
    ensures
        dec_response(enc_response(m)) == Some(m),
{
    reveal(dec_response_consent_list);
    reveal_strlit("res");
    reveal_strlit("ConsentList");
    reveal_strlit("items");
    reveal_strlit("Stored");
    reveal_strlit("Loaded");
    reveal_strlit("Success");
    reveal_strlit("List");
    reveal_strlit("PeerList");
    reveal_strlit("PeerConnected");
    reveal_strlit("Error");
    reveal_strlit("Status");
    reveal_strlit("StreamStarted");
    reveal_strlit("FlushSuccess");
    reveal_strlit("TrustedList");
    lemma_short_text_fits("ConsentList"@);
    assert("ConsentList"@.len() != "Stored"@.len());
    assert("ConsentList"@.len() != "Loaded"@.len());
    assert("ConsentList"@.len() != "Success"@.len());
    assert("ConsentList"@.len() != "List"@.len());
    assert("ConsentList"@.len() != "PeerList"@.len());
    assert("ConsentList"@.len() != "PeerConnected"@.len());
    assert("ConsentList"@.len() != "Error"@.len());
    assert("ConsentList"@.len() != "Status"@.len());
    assert("ConsentList"@.len() != "StreamStarted"@.len());
    assert("ConsentList"@.len() != "FlushSuccess"@.len());
    assert("ConsentList"@[0] != "TrustedList"@[0]);
    let items = m->ConsentList_items;
    let t1 = Seq::<u8>::empty();
    let t0 = entry("items"@, enc_consents(items)) + t1;
    let tagged = entry("res"@, enc_str("ConsentList"@)) + t0;
    let h = enc_len(Sized::Table, 2);
    let h0 = h + entry("res"@, enc_str("ConsentList"@));
    let h1 = h0 + entry("items"@, enc_consents(items));
    assert(h1 + t1 =~= h1);
    lemma_join(h0, entry("items"@, enc_consents(items)), t1);
    lemma_join(h, entry("res"@, enc_str("ConsentList"@)), t0);
    assert(enc_response(m) == h1);
    lemma_parse_len(Sized::Table, 2, tagged);
    lemma_str_field("res"@, "ConsentList"@, t0);
    lemma_consents_field("items"@, items, t1);
}

proof fn lemma_response_connection_status(m: ResponseView)
    requires
        m is ConnectionStatus,
        response_fits(m),
    ensures
        dec_response(enc_response(m)) == Some(m),
{
    reveal(dec_response_connection_status);
    reveal_strlit("res");
    reveal_strlit("ConnectionStatus");
    reveal_strlit("state");
    reveal_strlit("msg");
    reveal_strlit("Stored");
    reveal_strlit("Loaded");
    reveal_strlit("Success");
    reveal_strlit("List");
    reveal_strlit("PeerList");
    reveal_strlit("PeerConnected");
    reveal_strlit("Error");
    reveal_strlit("Status");
    reveal_strlit("StreamStarted");
    reveal_strlit("FlushSuccess");
    reveal_strlit("TrustedList");
    reveal_strlit("ConsentList");
    lemma_short_text_fits("ConnectionStatus"@);
    assert("ConnectionStatus"@.len() != "Stored"@.len());
    assert("ConnectionStatus"@.len() != "Loaded"@.len());
    assert("ConnectionStatus"@.len() != "Success"@.len());
    assert("ConnectionStatus"@.len() != "List"@.len());
    assert("ConnectionStatus"@.len() != "PeerList"@.len());
    assert("ConnectionStatus"@.len() != "PeerConnected"@.len());
    assert("ConnectionStatus"@.len() != "Error"@.len());
    assert("ConnectionStatus"@.len() != "Status"@.len());
    assert("ConnectionStatus"@.len() != "StreamStarted"@.len());
    assert("ConnectionStatus"@.len() != "FlushSuccess"@.len());
    assert("ConnectionStatus"@.len() != "TrustedList"@.len());
    assert("ConnectionStatus"@.len() != "ConsentList"@.len());
    let state = m->ConnectionStatus_state;
    let msg = m->ConnectionStatus_msg;
    let t2 = Seq::<u8>::empty();
    let t1 = entry("msg"@, enc_opt_str(msg)) + t2;
    let t0 = entry("state"@, enc_str(state)) + t1;
    let tagged = entry("res"@, enc_str("ConnectionStatus"@)) + t0;
    let h = enc_len(Sized::Table, 3);
    let h0 = h + entry("res"@, enc_str("ConnectionStatus"@));
    let h1 = h0 + entry("state"@, enc_str(state));
    let h2 = h1 + entry("msg"@, enc_opt_str(msg));
    assert(h2 + t2 =~= h2);
    lemma_join(h1, entry("msg"@, enc_opt_str(msg)), t2);
    lemma_join(h0, entry("state"@, enc_str(state)), t1);
    lemma_join(h, entry("res"@, enc_str("ConnectionStatus"@)), t0);
    assert(enc_response(m) == h2);
    lemma_parse_len(Sized::Table, 3, tagged);
    lemma_str_field("res"@, "ConnectionStatus"@, t0);
    lemma_str_field("state"@, state, t1);
    lemma_opt_str_field("msg"@, msg, t2);
}

/// An answer that is written and read back is the same.
pub proof fn lemma_response_roundtrip(m: ResponseView)
    requires
        response_fits(m),
    ensures
        dec_response(enc_response(m)) == Some(m),
{
    match m {
        ResponseView::Stored { .. } => {
            lemma_response_stored(m);
        },
        ResponseView::Loaded { .. } => {
            lemma_response_loaded(m);
        },
        ResponseView::Success => {
            lemma_response_success(m);
        },
        ResponseView::List { .. } => {
            lemma_response_list(m);
        },
        ResponseView::PeerList { .. } => {
            lemma_response_peer_list(m);
        },
        ResponseView::PeerConnected { .. } => {
            lemma_response_peer_connected(m);
        },
        ResponseView::Error { .. } => {
            lemma_response_error(m);
        },
        ResponseView::Status { .. } => {
            lemma_response_status(m);
        },
        ResponseView::StreamStarted { .. } => {
            lemma_response_stream_started(m);
        },
        ResponseView::FlushSuccess => {
            lemma_response_flush_success(m);
        },
        ResponseView::TrustedList { .. } => {
            lemma_response_trusted_list(m);
        },
        ResponseView::ConsentList { .. } => {
            lemma_response_consent_list(m);
        },
        ResponseView::ConnectionStatus { .. } => {
            lemma_response_connection_status(m);
        },
    }
}

fn write_response_stored(p: &mut Packer, m: &SdkResponse)
    requires
        old(p).ok,
        old(p).out@.len() == 0,
        m is Stored,
    ensures
        final(p).ok == response_fits(m@),
        final(p).ok ==> final(p).out@ == enc_response(m@),
{
    proof {
        reveal_strlit("res");
        reveal_strlit("Stored");
        reveal_strlit("id");
        lemma_short_text_fits("Stored"@);
    }
    match m {
        SdkResponse::Stored { id } => {
            p.len(Sized::Table, 2);
            assert(p.out@ =~= enc_len(Sized::Table, 2));
            put_str(p, "res", &String::from_str("Stored"));
            put_id(p, "id", id);
        },
        _ => {},
    }
}

fn read_response_stored(u: &mut Unpacker) -> (r: Option<SdkResponse>)
    requires
        old(u).wf(),
    ensures
        r.is_some() == dec_response_stored(old(u).rest()).is_some(),
        r.is_some() ==> dec_response_stored(old(u).rest()) == Some(r.unwrap()@),
{
    reveal(dec_response_stored);
    let id = match get_id(u, "id") {
        Some(v) => v,
        None => {
            return None;
        },
    };
    if u.at_end() {
        Some(SdkResponse::Stored { id })
    } else {
        None
    }
}

fn write_response_loaded(p: &mut Packer, m: &SdkResponse)
    requires
        old(p).ok,
        old(p).out@.len() == 0,
        m is Loaded,
    ensures
        final(p).ok == response_fits(m@),
        final(p).ok ==> final(p).out@ == enc_response(m@),
{
    proof {
        reveal_strlit("res");
        reveal_strlit("Loaded");
        reveal_strlit("data");
        lemma_short_text_fits("Loaded"@);
    }
    match m {
        SdkResponse::Loaded { data } => {
            p.len(Sized::Table, 2);
            assert(p.out@ =~= enc_len(Sized::Table, 2));
            put_str(p, "res", &String::from_str("Loaded"));
            put_bin(p, "data", data);
        },
        _ => {},
    }
}

fn read_response_loaded(u: &mut Unpacker) -> (r: Option<SdkResponse>)
    requires
        old(u).wf(),
    ensures
        r.is_some() == dec_response_loaded(old(u).rest()).is_some(),
        r.is_some() ==> dec_response_loaded(old(u).rest()) == Some(r.unwrap()@),
{
    reveal(dec_response_loaded);
    let data = match get_bin(u, "data") {
        Some(v) => v,
        None => {
            return None;
        },
    };
    if u.at_end() {
        Some(SdkResponse::Loaded { data })
    } else {
        None
    }
}

fn write_response_list(p: &mut Packer, m: &SdkResponse)
    requires
        old(p).ok,
        old(p).out@.len() == 0,
        m is List,
    ensures
        final(p).ok == response_fits(m@),
        final(p).ok ==> final(p).out@ == enc_response(m@),
{
    proof {
        reveal_strlit("res");
        reveal_strlit("List");
        reveal_strlit("items");
        lemma_short_text_fits("List"@);
    }
    match m {
        SdkResponse::List { items } => {
            p.len(Sized::Table, 2);
            assert(p.out@ =~= enc_len(Sized::Table, 2));
            put_str(p, "res", &String::from_str("List"));
            put_texts(p, "items", items);
        },
        _ => {},
    }
}

fn read_response_list(u: &mut Unpacker) -> (r: Option<SdkResponse>)
    requires
        old(u).wf(),
    ensures
        r.is_some() == dec_response_list(old(u).rest()).is_some(),
        r.is_some() ==> dec_response_list(old(u).rest()) == Some(r.unwrap()@),
{
    reveal(dec_response_list);
    let items = match get_texts(u, "items") {
        Some(v) => v,
        None => {
            return None;
        },
    };
    if u.at_end() {
        Some(SdkResponse::List { items })
    } else {
        None
    }
}

fn write_response_peer_list(p: &mut Packer, m: &SdkResponse)
    requires
        old(p).ok,
        old(p).out@.len() == 0,
        m is PeerList,
    ensures
        final(p).ok == response_fits(m@),
        final(p).ok ==> final(p).out@ == enc_response(m@),
{
    proof {
        reveal_strlit("res");
        reveal_strlit("PeerList");
        reveal_strlit("peers");
        lemma_short_text_fits("PeerList"@);
    }
    match m {
        SdkResponse::PeerList { peers } => {
            p.len(Sized::Table, 2);
            assert(p.out@ =~= enc_len(Sized::Table, 2));
            put_str(p, "res", &String::from_str("PeerList"));
            put_peers(p, "peers", peers);
        },
        _ => {},
    }
}

fn read_response_peer_list(u: &mut Unpacker) -> (r: Option<SdkResponse>)
    requires
        old(u).wf(),
    ensures
        r.is_some() == dec_response_peer_list(old(u).rest()).is_some(),
        r.is_some() ==> dec_response_peer_list(old(u).rest()) == Some(r.unwrap()@),
{
    reveal(dec_response_peer_list);
    let peers = match get_peers(u, "peers") {
        Some(v) => v,
        None => {
            return None;
        },
    };
    if u.at_end() {
        Some(SdkResponse::PeerList { peers })
    } else {
        None
    }
}

fn write_response_peer_connected(p: &mut Packer, m: &SdkResponse)
    requires
        old(p).ok,
        old(p).out@.len() == 0,
        m is PeerConnected,
    ensures
        final(p).ok == response_fits(m@),
        final(p).ok ==> final(p).out@ == enc_response(m@),
{
    proof {
        reveal_strlit("res");
        reveal_strlit("PeerConnected");
        reveal_strlit("metadata");
        lemma_short_text_fits("PeerConnected"@);
    }
    match m {
        SdkResponse::PeerConnected { metadata } => {
            p.len(Sized::Table, 2);
            assert(p.out@ =~= enc_len(Sized::Table, 2));
            put_str(p, "res", &String::from_str("PeerConnected"));
            put_peer(p, "metadata", metadata);
        },
        _ => {},
    }
}

fn read_response_peer_connected(u: &mut Unpacker) -> (r: Option<SdkResponse>)
    requires
        old(u).wf(),
    ensures
        r.is_some() == dec_response_peer_connected(old(u).rest()).is_some(),
        r.is_some() ==> dec_response_peer_connected(old(u).rest()) == Some(r.unwrap()@),
{
    reveal(dec_response_peer_connected);
    let metadata = match get_peer(u, "metadata") {
        Some(v) => v,
        None => {
            return None;
        },
    };
    if u.at_end() {
        Some(SdkResponse::PeerConnected { metadata })
    } else {
        None
    }
}

fn write_response_error(p: &mut Packer, m: &SdkResponse)
    requires
        old(p).ok,
        old(p).out@.len() == 0,
        m is Error,
    ensures
        final(p).ok == response_fits(m@),
        final(p).ok ==> final(p).out@ == enc_response(m@),
{
    proof {
        reveal_strlit("res");
        reveal_strlit("Error");
        reveal_strlit("msg");
        lemma_short_text_fits("Error"@);
    }
    match m {
        SdkResponse::Error { msg } => {
            p.len(Sized::Table, 2);
            assert(p.out@ =~= enc_len(Sized::Table, 2));
            put_str(p, "res", &String::from_str("Error"));
            put_str(p, "msg", msg);
        },
        _ => {},
    }
}

fn read_response_error(u: &mut Unpacker) -> (r: Option<SdkResponse>)
    requires
        old(u).wf(),
    ensures
        r.is_some() == dec_response_error(old(u).rest()).is_some(),
        r.is_some() ==> dec_response_error(old(u).rest()) == Some(r.unwrap()@),
{
    reveal(dec_response_error);
    let msg = match get_str(u, "msg") {
        Some(v) => v,
        None => {
            return None;
        },
    };
    if u.at_end() {
        Some(SdkResponse::Error { msg })
    } else {
        None
    }
}

#[verifier::rlimit(40)]
fn write_response_status(p: &mut Packer, m: &SdkResponse)
    requires
        old(p).ok,
        old(p).out@.len() == 0,
        m is Status,
    ensures
        final(p).ok == response_fits(m@),
        final(p).ok ==> final(p).out@ == enc_response(m@),
{
    proof {
        reveal_strlit("res");
        reveal_strlit("Status");
        reveal_strlit("blocks");
        reveal_strlit("peers");
        reveal_strlit("memory_usage");
        lemma_short_text_fits("Status"@);
    }
    match m {
        SdkResponse::Status { blocks, peers, memory_usage } => {
            p.len(Sized::Table, 4);
            assert(p.out@ =~= enc_len(Sized::Table, 4));
            put_str(p, "res", &String::from_str("Status"));
            put_usize(p, "blocks", blocks);
            put_usize(p, "peers", peers);
            put_usize(p, "memory_usage", memory_usage);
        },
        _ => {},
    }
}

#[verifier::rlimit(40)]
fn read_response_status(u: &mut Unpacker) -> (r: Option<SdkResponse>)
    requires
        old(u).wf(),
    ensures
        r.is_some() == dec_response_status(old(u).rest()).is_some(),
        r.is_some() ==> dec_response_status(old(u).rest()) == Some(r.unwrap()@),
{
    reveal(dec_response_status);
    let blocks = match get_usize(u, "blocks") {
        Some(v) => v,
        None => {
            return None;
        },
    };
    let peers = match get_usize(u, "peers") {
        Some(v) => v,
        None => {
            return None;
        },
    };
    let memory_usage = match get_usize(u, "memory_usage") {
        Some(v) => v,
        None => {
            return None;
        },
    };
    if u.at_end() {
        Some(SdkResponse::Status { blocks, peers, memory_usage })
    } else {
        None
    }
}

fn write_response_stream_started(p: &mut Packer, m: &SdkResponse)
    requires
        old(p).ok,
        old(p).out@.len() == 0,
        m is StreamStarted,
    ensures
        final(p).ok == response_fits(m@),
        final(p).ok ==> final(p).out@ == enc_response(m@),
{
    proof {
        reveal_strlit("res");
        reveal_strlit("StreamStarted");
        reveal_strlit("stream_id");
        lemma_short_text_fits("StreamStarted"@);
    }
    match m {
        SdkResponse::StreamStarted { stream_id } => {
            p.len(Sized::Table, 2);
            assert(p.out@ =~= enc_len(Sized::Table, 2));
            put_str(p, "res", &String::from_str("StreamStarted"));
            put_uint(p, "stream_id", stream_id);
        },
        _ => {},
    }
}

fn read_response_stream_started(u: &mut Unpacker) -> (r: Option<SdkResponse>)
    requires
        old(u).wf(),
    ensures
        r.is_some() == dec_response_stream_started(old(u).rest()).is_some(),
        r.is_some() ==> dec_response_stream_started(old(u).rest()) == Some(r.unwrap()@),
{
    reveal(dec_response_stream_started);
    let stream_id = match get_uint(u, "stream_id") {
        Some(v) => v,
        None => {
            return None;
        },
    };
    if u.at_end() {
        Some(SdkResponse::StreamStarted { stream_id })
    } else {
        None
    }
}

fn write_response_trusted_list(p: &mut Packer, m: &SdkResponse)
    requires
        old(p).ok,
        old(p).out@.len() == 0,
        m is TrustedList,
    ensures
        final(p).ok == response_fits(m@),
        final(p).ok ==> final(p).out@ == enc_response(m@),
{
    proof {
        reveal_strlit("res");
        reveal_strlit("TrustedList");
        reveal_strlit("items");
        lemma_short_text_fits("TrustedList"@);
    }
    match m {
        SdkResponse::TrustedList { items } => {
            p.len(Sized::Table, 2);
            assert(p.out@ =~= enc_len(Sized::Table, 2));
            put_str(p, "res", &String::from_str("TrustedList"));
            put_devices(p, "items", items);
        },
        _ => {},
    }
}

fn read_response_trusted_list(u: &mut Unpacker) -> (r: Option<SdkResponse>)
    requires
        old(u).wf(),
    ensures
        r.is_some() == dec_response_trusted_list(old(u).rest()).is_some(),
        r.is_some() ==> dec_response_trusted_list(old(u).rest()) == Some(r.unwrap()@),
{
    reveal(dec_response_trusted_list);
    let items = match get_devices(u, "items") {
        Some(v) => v,
        None => {
            return None;
        },
    };
    if u.at_end() {
        Some(SdkResponse::TrustedList { items })
    } else {
        None
    }
}

fn write_response_consent_list(p: &mut Packer, m: &SdkResponse)
    requires
        old(p).ok,
        old(p).out@.len() == 0,
        m is ConsentList,
    ensures
        final(p).ok == response_fits(m@),
        final(p).ok ==> final(p).out@ == enc_response(m@),
{
    proof {
        reveal_strlit("res");
        reveal_strlit("ConsentList");
        reveal_strlit("items");
        lemma_short_text_fits("ConsentList"@);
    }
    match m {
        SdkResponse::ConsentList { items } => {
            p.len(Sized::Table, 2);
            assert(p.out@ =~= enc_len(Sized::Table, 2));
            put_str(p, "res", &String::from_str("ConsentList"));
            put_consents(p, "items", items);
        },
        _ => {},
    }
}

fn read_response_consent_list(u: &mut Unpacker) -> (r: Option<SdkResponse>)
    requires
        old(u).wf(),
    ensures
        r.is_some() == dec_response_consent_list(old(u).rest()).is_some(),
        r.is_some() ==> dec_response_consent_list(old(u).rest()) == Some(r.unwrap()@),
{
    reveal(dec_response_consent_list);
    let items = match get_consents(u, "items") {
        Some(v) => v,
        None => {
            return None;
        },
    };
    if u.at_end() {
        Some(SdkResponse::ConsentList { items })
    } else {
        None
    }
}

fn write_response_connection_status(p: &mut Packer, m: &SdkResponse)
    requires
        old(p).ok,
        old(p).out@.len() == 0,
        m is ConnectionStatus,
    ensures
        final(p).ok == response_fits(m@),
        final(p).ok ==> final(p).out@ == enc_response(m@),
{
    proof {
        reveal_strlit("res");
        reveal_strlit("ConnectionStatus");
        reveal_strlit("state");
        reveal_strlit("msg");
        lemma_short_text_fits("ConnectionStatus"@);
    }
    match m {
        SdkResponse::ConnectionStatus { state, msg } => {
            p.len(Sized::Table, 3);
            assert(p.out@ =~= enc_len(Sized::Table, 3));
            put_str(p, "res", &String::from_str("ConnectionStatus"));
            put_str(p, "state", state);
            put_opt_str(p, "msg", msg);
        },
        _ => {},
    }
}

fn read_response_connection_status(u: &mut Unpacker) -> (r: Option<SdkResponse>)
    requires
        old(u).wf(),
    ensures
        r.is_some() == dec_response_connection_status(old(u).rest()).is_some(),
        r.is_some() ==> dec_response_connection_status(old(u).rest()) == Some(r.unwrap()@),
{
    reveal(dec_response_connection_status);
    let state = match get_str(u, "state") {
        Some(v) => v,
        None => {
            return None;
        },
    };
    let msg = match get_opt_str(u, "msg") {
        Some(v) => v,
        None => {
            return None;
        },
    };
    if u.at_end() {
        Some(SdkResponse::ConnectionStatus { state, msg })
    } else {
        None
    }
}

fn write_response_name(p: &mut Packer, name: &str)
    requires
        old(p).ok,
        old(p).out@.len() == 0,
        name@.len() <= 1000,
    ensures
        final(p).ok,
        final(p).out@ == enc_len(Sized::Table, 1) + entry("res"@, enc_str(name@)),
{
    proof {
        reveal_strlit("res");
        lemma_short_text_fits(name@);
    }
    p.len(Sized::Table, 1);
    assert(p.out@ =~= enc_len(Sized::Table, 1));
    put_str(p, "res", &String::from_str(name));
}

/// The bytes of an answer, as they travel in a frame of the control
/// socket; nothing where a text, a byte string or a list of it is too
/// long to be written.
#[verifier::rlimit(40)]
pub fn encode_response(m: &SdkResponse) -> (bytes: Option<Vec<u8>>)
    ensures
        bytes.is_some() == response_fits(m@),
        bytes.is_some() ==> bytes.unwrap()@ == enc_response(m@),
{
    let mut p = Packer::new();
    match m {
        SdkResponse::Stored { .. } => {
            write_response_stored(&mut p, m);
        },
        SdkResponse::Loaded { .. } => {
            write_response_loaded(&mut p, m);
        },
        SdkResponse::Success => {
            proof {
                reveal_strlit("Success");
            }
            write_response_name(&mut p, "Success");
        },
        SdkResponse::List { .. } => {
            write_response_list(&mut p, m);
        },
        SdkResponse::PeerList { .. } => {
            write_response_peer_list(&mut p, m);
        },
        SdkResponse::PeerConnected { .. } => {
            write_response_peer_connected(&mut p, m);
        },
        SdkResponse::Error { .. } => {
            write_response_error(&mut p, m);
        },
        SdkResponse::Status { .. } => {
            write_response_status(&mut p, m);
        },
        SdkResponse::StreamStarted { .. } => {
            write_response_stream_started(&mut p, m);
        },
        SdkResponse::FlushSuccess => {
            proof {
                reveal_strlit("FlushSuccess");
            }
            write_response_name(&mut p, "FlushSuccess");
        },
        SdkResponse::TrustedList { .. } => {
            write_response_trusted_list(&mut p, m);
        },
        SdkResponse::ConsentList { .. } => {
            write_response_consent_list(&mut p, m);
        },
        SdkResponse::ConnectionStatus { .. } => {
            write_response_connection_status(&mut p, m);
        },
    }
    if p.ok {
        Some(p.out)
    } else {
        None
    }
}

/// The answer that the payload of a frame of the control socket holds.
#[verifier::rlimit(40)]
pub fn decode_response(bytes: &[u8]) -> (r: Option<SdkResponse>)
    ensures
        r.is_some() == dec_response(bytes@).is_some(),
        r.is_some() ==> dec_response(bytes@) == Some(r.unwrap()@),
{
    let mut u = Unpacker::new(bytes);
    let n = match u.len(Sized::Table) {
        Some(n) => n,
        None => {
            return None;
        },
    };
    let name = match get_str(&mut u, "res") {
        Some(t) => t,
        None => {
            return None;
        },
    };
    if same_text(name.as_str(), "Stored") {
        if n == 2 {
            read_response_stored(&mut u)
        } else {
            None
        }
    } else if same_text(name.as_str(), "Loaded") {
        if n == 2 {
            read_response_loaded(&mut u)
        } else {
            None
        }
    } else if same_text(name.as_str(), "Success") {
        if n == 1 && u.at_end() {
            Some(SdkResponse::Success)
        } else {
            None
        }
    } else if same_text(name.as_str(), "List") {
        if n == 2 {
            read_response_list(&mut u)
        } else {
            None
        }
    } else if same_text(name.as_str(), "PeerList") {
        if n == 2 {
            read_response_peer_list(&mut u)
        } else {
            None
        }
    } else if same_text(name.as_str(), "PeerConnected") {
        if n == 2 {
            read_response_peer_connected(&mut u)
        } else {
            None
        }
    } else if same_text(name.as_str(), "Error") {
        if n == 2 {
            read_response_error(&mut u)
        } else {
            None
        }
    } else if same_text(name.as_str(), "Status") {
        if n == 4 {
            read_response_status(&mut u)
        } else {
            None
        }
    } else if same_text(name.as_str(), "StreamStarted") {
        if n == 2 {
            read_response_stream_started(&mut u)
        } else {
            None
        }
    } else if same_text(name.as_str(), "FlushSuccess") {
        if n == 1 && u.at_end() {
            Some(SdkResponse::FlushSuccess)
        } else {
            None
        }
    } else if same_text(name.as_str(), "TrustedList") {
        if n == 2 {
            read_response_trusted_list(&mut u)
        } else {
            None
        }
    } else if same_text(name.as_str(), "ConsentList") {
        if n == 2 {
            read_response_consent_list(&mut u)
        } else {
            None
        }
    } else if same_text(name.as_str(), "ConnectionStatus") {
        if n == 3 {
            read_response_connection_status(&mut u)
        } else {
            None
        }
    } else {
        None
    }
}

} // verus!
