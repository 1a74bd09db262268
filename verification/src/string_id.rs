//! Block ids as decimal text. On the control socket a block id travels as
//! a string, so that clients whose numbers are narrower than 64 bits can
//! pass it through unharmed.

use vstd::prelude::*;

use crate::size::all_ascii_digits;
use crate::size::chars_of;
use crate::size::decimal_value;
use crate::size::is_ascii_digit;

verus! {

/// Why a text is no block id.
#[derive(Debug, Clone, Copy, PartialEq, Eq, Structural)]
pub enum IdError {
    /// The text holds no digits.
    Empty,
    /// The text holds something that is no decimal digit.
    InvalidDigit,
    /// The number does not fit 64 bits.
    Overflow,
}

/// The character of a decimal digit.
pub open spec fn digit_char(d: int) -> char {
    ('0' as int + d) as char
}

/// The decimal text of a number, without leading zeros.
pub open spec fn decimal_text(n: nat) -> Seq<char>
    decreases n,
{
    if n < 10 {
        seq![digit_char(n as int)]
    } else {
        decimal_text(n / 10).push(digit_char((n % 10) as int))
    }
}

/// The digits of a text that may start with a plus sign.
pub open spec fn unsigned_part(t: Seq<char>) -> Seq<char> {
    if t.len() > 0 && t[0] == '+' {
        t.subrange(1, t.len() as int)
    } else {
        t
    }
}

/// The block id that a text spells: decimal digits, with an optional plus
/// sign before them, that make a number of at most 64 bits.
pub open spec fn id_of_text(t: Seq<char>) -> Result<u64, IdError> {
    let d = unsigned_part(t);
    if d.len() == 0 {
        Err(IdError::Empty)
    } else if !all_ascii_digits(d) {
        Err(IdError::InvalidDigit)
    } else if decimal_value(d) > u64::MAX {
        Err(IdError::Overflow)
    } else {
        Ok(decimal_value(d) as u64)
    }
}

/// The decimal text of a number is made of digits and spells the number.
pub proof fn lemma_decimal_text(n: nat)
    ensures
        decimal_text(n).len() > 0,
        all_ascii_digits(decimal_text(n)),
        decimal_value(decimal_text(n)) == n,
    decreases n,
{
    if n >= 10 {
        lemma_decimal_text(n / 10);
        let t = decimal_text(n);
        let head = decimal_text(n / 10);
        assert(t.drop_last() =~= head);
        assert(t.last() == digit_char((n % 10) as int));
        assert forall|i: int| 0 <= i < t.len() implies is_ascii_digit(#[trigger] t[i]) by {
            if i < head.len() {
                assert(t[i] == head[i]);
            }
        }
    } else {
        let t = decimal_text(n);
        assert(t.drop_last() =~= Seq::<char>::empty());
        assert(decimal_value(t.drop_last()) == 0);
    }
}

/// A block id written as text and read back is the same id.
pub proof fn lemma_id_text_roundtrip(id: u64)
    ensures
        id_of_text(decimal_text(id as nat)) == Ok::<u64, IdError>(id),
{
    lemma_decimal_text(id as nat);
    let t = decimal_text(id as nat);
    assert(is_ascii_digit(t[0]));
    assert(unsigned_part(t) == t);
}

/// Appends the decimal text of `n`.
fn push_decimal(text: &mut String, n: u64)
    ensures
        final(text)@ == old(text)@ + decimal_text(n as nat),
    decreases n,
{
    if n >= 10 {
        push_decimal(text, n / 10);
    }
    let d = (n % 10) as u8;
    let c = (48u8 + d) as char;
    text.push(c);
    proof {
        assert(c == digit_char((n % 10) as int));
        if n >= 10 {
            assert(text@ =~= old(text)@ + decimal_text(n as nat));
        } else {
            assert(text@ =~= old(text)@ + decimal_text(n as nat));
        }
    }
}

/// The decimal text of a number.
pub fn decimal_string(n: u64) -> (text: String)
    ensures
        text@ == decimal_text(n as nat),
{
    let mut text = String::new();
    push_decimal(&mut text, n);
    assert(Seq::<char>::empty() + decimal_text(n as nat) =~= decimal_text(n as nat));
    text
}

/// The text that carries a block id on the control socket.
pub fn serialize(id: &u64) -> (text: String)
    ensures
        text@ == decimal_text(*id as nat),
        id_of_text(text@) == Ok::<u64, IdError>(*id),
{
    proof {
        lemma_id_text_roundtrip(*id);
    }
    decimal_string(*id)
}

/// The block id that a text from the control socket carries.
#[verifier::loop_isolation(false)]
#[verifier::rlimit(40)]
pub fn deserialize(text: &str) -> (r: Result<u64, IdError>)
    ensures
        r == id_of_text(text@),
{
    let t = chars_of(text);
    let n = t.len();
    let start: usize = if n > 0 && t[0] == '+' { 1 } else { 0 };
    let ghost d = t@.subrange(start as int, n as int);
    assert(d == unsigned_part(t@)) by {
        if start == 0 {
            assert(t@.subrange(0, n as int) =~= t@);
        }
    }
    if start == n {
        return Err(IdError::Empty);
    }
    let mut i: usize = start;
    let mut value: u64 = 0;
    let mut too_large = false;
    while i < n
        invariant
            start <= i <= n,
            all_ascii_digits(d.subrange(0, i - start)),
            !too_large ==> value == decimal_value(d.subrange(0, i - start)),
            too_large ==> decimal_value(d.subrange(0, i - start)) > u64::MAX,
        decreases n - i,
    {
        let c = t[i];
        let ghost prev = d.subrange(0, i - start);
        let ghost next = d.subrange(0, i - start + 1);
        proof {
            assert(next.drop_last() =~= prev);
            assert(next.last() == c);
            assert(d[i - start] == c);
        }
        if !('0' <= c && c <= '9') {
            return Err(IdError::InvalidDigit);
        }
        let digit = (c as u32 - '0' as u32) as u64;
        if !too_large {
            if value > (u64::MAX - digit) / 10 {
                too_large = true;
            } else {
                value = value * 10 + digit;
            }
        }
        proof {
            assert forall|j: int|
                0 <= j < next.len() implies is_ascii_digit(#[trigger] next[j]) by {
                if j < next.len() - 1 {
                    assert(next[j] == prev[j]);
                }
            }
        }
        i = i + 1;
    }
    proof {
        assert(d.subrange(0, n - start) =~= d);
    }
    if too_large {
        Err(IdError::Overflow)
    } else {
        Ok(value)
    }
}

} // verus!
