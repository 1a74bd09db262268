//! Sizes as people write and read them: a decimal number and an optional
//! unit, as in `512mb`, and a number of bytes shown as `1.5 GB`.

use vstd::prelude::*;
use vstd::string::StringExecFns;
use vstd::string::StrSliceExecFns;

use crate::string_id::decimal_string;
use crate::string_id::decimal_text;

verus! {

/// Whether Unicode counts a character as white space: the characters
/// with the property `White_Space`.
pub open spec fn unicode_whitespace(c: char) -> bool {
    ||| '\u{9}' <= c <= '\u{d}'
    ||| c == ' '
    ||| c == '\u{85}'
    ||| c == '\u{a0}'
    ||| c == '\u{1680}'
    ||| '\u{2000}' <= c <= '\u{200a}'
    ||| c == '\u{2028}'
    ||| c == '\u{2029}'
    ||| c == '\u{202f}'
    ||| c == '\u{205f}'
    ||| c == '\u{3000}'
}

/// Whether a character is an ASCII character.
pub open spec fn is_ascii(c: char) -> bool {
    c <= '\u{7f}'
}

/// Whether every character of a text is an ASCII character.
pub open spec fn is_ascii_text(t: Seq<char>) -> bool {
    forall|i: int| 0 <= i < t.len() ==> is_ascii(#[trigger] t[i])
}

/// The lower-case form of an ASCII character: the small letter of a
/// capital from `A` to `Z`, and any other character itself.
pub open spec fn ascii_lower(c: char) -> char {
    if 'A' <= c <= 'Z' {
        (c as int + 32) as char
    } else {
        c
    }
}

/// A text with each character in its ASCII lower-case form.
pub open spec fn ascii_lowercase(t: Seq<char>) -> Seq<char> {
    Seq::new(t.len(), |i: int| ascii_lower(t[i]))
}

/// Whether Unicode counts a character as numeric.
pub uninterp spec fn unicode_numeric(c: char) -> bool;

/// The lower-case form that Unicode gives a text.
pub uninterp spec fn unicode_lowercase(text: Seq<char>) -> Seq<char>;

/// `char::is_whitespace`: whether the character has the Unicode property
/// `White_Space`.
#[verifier::external_body]
fn char_is_whitespace(c: char) -> (r: bool)
    ensures
        r == unicode_whitespace(c),
{
    c.is_whitespace()
}

/// `char::is_numeric`: whether Unicode counts the character as numeric.
/// Of the ASCII characters the ten digits are numeric, and no other.
#[verifier::external_body]
fn char_is_numeric(c: char) -> (r: bool)
    ensures
        r == unicode_numeric(c),
        is_ascii(c) ==> r == is_ascii_digit(c),
{
    c.is_numeric()
}

/// `str::to_lowercase`: the lower-case form that Unicode gives the text.
/// In a text of ASCII characters the capitals from `A` to `Z` become small
/// letters, and nothing else changes.
#[verifier::external_body]
fn str_to_lowercase(text: &str) -> (lower: String)
    ensures
        lower@ == unicode_lowercase(text@),
        is_ascii_text(text@) ==> lower@ == ascii_lowercase(text@),
{
    text.to_lowercase()
}

/// `String::push` appends one character to the text.
pub assume_specification[ String::push ](text: &mut String, c: char)
    ensures
        final(text)@ == old(text)@.push(c),
;

/// Why a text is no size.
#[derive(Debug)]
pub enum SizeError {
    /// The text does not start with a decimal number that fits 64 bits.
    InvalidNumber,
    /// What follows the number is no unit.
    InvalidSuffix { suffix: String },
    /// The number of bytes does not fit 64 bits.
    Overflow,
}

/// What a text means as a size.
pub enum SizeOutcome {
    Bytes(u64),
    InvalidNumber,
    InvalidSuffix(Seq<char>),
    Overflow,
}

/// The outcome that a result of `parse_size` stands for.
pub open spec fn outcome_of(r: Result<u64, SizeError>) -> SizeOutcome {
    match r {
        Ok(v) => SizeOutcome::Bytes(v),
        Err(SizeError::InvalidNumber) => SizeOutcome::InvalidNumber,
        Err(SizeError::InvalidSuffix { suffix }) => SizeOutcome::InvalidSuffix(suffix@),
        Err(SizeError::Overflow) => SizeOutcome::Overflow,
    }
}

/// The number of white-space characters at the start of `t`.
pub open spec fn leading_space(t: Seq<char>) -> int
    decreases t.len(),
{
    if t.len() > 0 && unicode_whitespace(t[0]) {
        1 + leading_space(t.drop_first())
    } else {
        0
    }
}

/// The number of white-space characters at the end of `t`.
pub open spec fn trailing_space(t: Seq<char>) -> int
    decreases t.len(),
{
    if t.len() > 0 && unicode_whitespace(t.last()) {
        1 + trailing_space(t.drop_last())
    } else {
        0
    }
}

/// `t` without the white space at its two ends.
pub open spec fn trimmed(t: Seq<char>) -> Seq<char> {
    let a = leading_space(t);
    if a == t.len() {
        Seq::empty()
    } else {
        t.subrange(a, t.len() - trailing_space(t))
    }
}

/// The number of numeric characters at the start of `t`.
pub open spec fn numeric_run(t: Seq<char>) -> int
    decreases t.len(),
{
    if t.len() > 0 && unicode_numeric(t[0]) {
        1 + numeric_run(t.drop_first())
    } else {
        0
    }
}

/// Whether `c` is one of the ten ASCII digits.
pub open spec fn is_ascii_digit(c: char) -> bool {
    '0' <= c <= '9'
}

/// Whether every character of `d` is an ASCII digit.
pub open spec fn all_ascii_digits(d: Seq<char>) -> bool {
    forall|i: int| 0 <= i < d.len() ==> is_ascii_digit(#[trigger] d[i])
}

/// The number that a run of ASCII digits spells in base ten.
pub open spec fn decimal_value(d: Seq<char>) -> int
    decreases d.len(),
{
    if d.len() == 0 {
        0
    } else {
        decimal_value(d.drop_last()) * 10 + (d.last() as int - '0' as int)
    }
}

/// The number of bytes in one unit, by the unit's name.
pub open spec fn unit_bytes(unit: Seq<char>) -> Option<int> {
    if unit == Seq::<char>::empty() || unit == seq!['b'] {
        Some(1int)
    } else if unit == seq!['k', 'b'] || unit == seq!['k'] {
        Some(1024int)
    } else if unit == seq!['m', 'b'] || unit == seq!['m'] {
        Some(1024int * 1024)
    } else if unit == seq!['g', 'b'] || unit == seq!['g'] {
        Some(1024int * 1024 * 1024)
    } else if unit == seq!['t', 'b'] || unit == seq!['t'] {
        Some(1024int * 1024 * 1024 * 1024)
    } else {
        None
    }
}

/// What a text means as a size when its first `n` characters are taken
/// as the number and the rest as the unit: the number must be ASCII digits
/// that spell a 64-bit number, and the rest, trimmed, a unit.
pub open spec fn size_at(t: Seq<char>, n: int) -> SizeOutcome {
    let digits = t.subrange(0, n);
    let suffix = t.subrange(n, t.len() as int);
    if n == 0 || !all_ascii_digits(digits) || decimal_value(digits) > u64::MAX {
        SizeOutcome::InvalidNumber
    } else {
        match unit_bytes(trimmed(suffix)) {
            None => SizeOutcome::InvalidSuffix(suffix),
            Some(unit) => if decimal_value(digits) * unit > u64::MAX {
                SizeOutcome::Overflow
            } else {
                SizeOutcome::Bytes((decimal_value(digits) * unit) as u64)
            },
        }
    }
}

/// What a trimmed lower-case text means as a size. The empty text is zero
/// bytes. Otherwise the number is the leading run of numeric characters.
pub open spec fn size_of(t: Seq<char>) -> SizeOutcome {
    if t.len() == 0 {
        SizeOutcome::Bytes(0)
    } else {
        size_at(t, numeric_run(t))
    }
}

/// The number of ASCII digits at the start of `t`.
pub open spec fn digit_run(t: Seq<char>) -> int
    decreases t.len(),
{
    if t.len() > 0 && is_ascii_digit(t[0]) {
        1 + digit_run(t.drop_first())
    } else {
        0
    }
}

/// What a trimmed lower-case text of ASCII characters means as a size.
/// The empty text is zero bytes. Otherwise the number is the leading run
/// of digits.
pub open spec fn ascii_size_of(t: Seq<char>) -> SizeOutcome {
    if t.len() == 0 {
        SizeOutcome::Bytes(0)
    } else {
        size_at(t, digit_run(t))
    }
}

proof fn lemma_digit_run(t: Seq<char>, n: int)
    requires
        0 <= n <= t.len(),
        forall|i: int| 0 <= i < n ==> is_ascii_digit(#[trigger] t[i]),
        n < t.len() ==> !is_ascii_digit(t[n]),
    ensures
        digit_run(t) == n,
    decreases n,
{
    if n > 0 {
        let u = t.drop_first();
        assert(forall|i: int| 0 <= i < n - 1 ==> u[i] == t[i + 1]);
        lemma_digit_run(u, n - 1);
    }
}

proof fn lemma_numeric_run(t: Seq<char>, n: int)
    requires
        0 <= n <= t.len(),
        forall|i: int| 0 <= i < n ==> unicode_numeric(#[trigger] t[i]),
        n < t.len() ==> !unicode_numeric(t[n]),
    ensures
        numeric_run(t) == n,
    decreases n,
{
    if n > 0 {
        let u = t.drop_first();
        assert(forall|i: int| 0 <= i < n - 1 ==> u[i] == t[i + 1]);
        lemma_numeric_run(u, n - 1);
    }
}

proof fn lemma_leading_space(t: Seq<char>, n: int)
    requires
        0 <= n <= t.len(),
        forall|i: int| 0 <= i < n ==> unicode_whitespace(#[trigger] t[i]),
        n < t.len() ==> !unicode_whitespace(t[n]),
    ensures
        leading_space(t) == n,
    decreases n,
{
    if n > 0 {
        let u = t.drop_first();
        assert(forall|i: int| 0 <= i < n - 1 ==> u[i] == t[i + 1]);
        lemma_leading_space(u, n - 1);
    }
}

proof fn lemma_trailing_space(t: Seq<char>, n: int)
    requires
        0 <= n <= t.len(),
        forall|i: int| t.len() - n <= i < t.len() ==> unicode_whitespace(#[trigger] t[i]),
        n < t.len() ==> !unicode_whitespace(t[t.len() - n - 1]),
    ensures
        trailing_space(t) == n,
    decreases n,
{
    if n > 0 {
        let u = t.drop_last();
        assert(forall|i: int| 0 <= i < u.len() ==> u[i] == t[i]);
        lemma_trailing_space(u, n - 1);
    }
}

/// The characters of `text`, in order.
pub fn chars_of(text: &str) -> (chars: Vec<char>)
    ensures
        chars@ == text@,
{
    let n = text.unicode_len();
    let mut chars: Vec<char> = Vec::new();
    let mut i: usize = 0;
    while i < n
        invariant
            n == text@.len(),
            i <= n,
            chars@ == text@.subrange(0, i as int),
        decreases n - i,
    {
        chars.push(text.get_char(i));
        i = i + 1;
        assert(chars@ =~= text@.subrange(0, i as int));
    }
    assert(text@.subrange(0, n as int) =~= text@);
    chars
}

/// The bounds of `t` without the white space at its two ends.
fn trim_bounds(t: &Vec<char>, from: usize) -> (r: (usize, usize))
    requires
        from <= t@.len(),
    ensures
        from <= r.0 <= r.1 <= t@.len(),
        t@.subrange(r.0 as int, r.1 as int) == trimmed(t@.subrange(from as int, t@.len() as int)),
{
    let n = t.len();
    let ghost s = t@.subrange(from as int, n as int);
    let mut a: usize = from;
    while a < n && char_is_whitespace(t[a])
        invariant
            n == t@.len(),
            from <= a <= n,
            s == t@.subrange(from as int, n as int),
            forall|i: int| 0 <= i < a - from ==> unicode_whitespace(#[trigger] s[i]),
        decreases n - a,
    {
        a = a + 1;
    }
    proof {
        lemma_leading_space(s, a - from);
    }
    if a == n {
        assert(t@.subrange(a as int, a as int) =~= Seq::<char>::empty());
        return (a, a);
    }
    let mut b: usize = n;
    while b > a + 1 && char_is_whitespace(t[b - 1])
        invariant
            n == t@.len(),
            from <= a < b <= n,
            s == t@.subrange(from as int, n as int),
            !unicode_whitespace(t@[a as int]),
            forall|i: int| b - from <= i < s.len() ==> unicode_whitespace(#[trigger] s[i]),
        decreases b,
    {
        b = b - 1;
    }
    proof {
        assert(s[b - from - 1] == t@[b - 1]);
        lemma_trailing_space(s, n - b);
        assert(t@.subrange(a as int, b as int) =~= s.subrange(a - from, s.len() - (n - b)));
    }
    (a, b)
}

/// The size that a trimmed lower-case text spells. For a text of ASCII
/// characters this is what `ascii_size_of` says, of which nothing is left
/// to what Unicode counts as numeric.
#[verifier::rlimit(40)]
pub fn size_from_chars(t: &Vec<char>) -> (r: Result<u64, SizeError>)
    ensures
        outcome_of(r) == size_of(t@),
        is_ascii_text(t@) ==> outcome_of(r) == ascii_size_of(t@),
{
    let len = t.len();
    if len == 0 {
        return Ok(0);
    }
    let mut n: usize = 0;
    while n < len && char_is_numeric(t[n])
        invariant
            len == t@.len(),
            n <= len,
            forall|i: int| 0 <= i < n ==> unicode_numeric(#[trigger] t@[i]),
            is_ascii_text(t@) ==> forall|i: int| 0 <= i < n ==> is_ascii_digit(#[trigger] t@[i]),
        decreases len - n,
    {
        n = n + 1;
    }
    proof {
        lemma_numeric_run(t@, n as int);
        if is_ascii_text(t@) {
            lemma_digit_run(t@, n as int);
        }
    }
    let ghost digits = t@.subrange(0, n as int);
    if n == 0 {
        return Err(SizeError::InvalidNumber);
    }
    let mut value: u64 = 0;
    let mut i: usize = 0;
    while i < n
        invariant
            0 < n <= len == t@.len(),
            numeric_run(t@) == n,
            is_ascii_text(t@) ==> digit_run(t@) == n,
            i <= n,
            digits == t@.subrange(0, n as int),
            all_ascii_digits(digits.subrange(0, i as int)),
            value == decimal_value(digits.subrange(0, i as int)),
        decreases n - i,
    {
        let c = t[i];
        let ghost next = digits.subrange(0, i + 1);
        proof {
            assert(next.drop_last() =~= digits.subrange(0, i as int));
            assert(next.last() == c);
        }
        if !('0' <= c && c <= '9') {
            proof {
                assert(digits[i as int] == c);
            }
            return Err(SizeError::InvalidNumber);
        }
        let d = (c as u32 - '0' as u32) as u64;
        if value > (u64::MAX - d) / 10 {
            proof {
                if all_ascii_digits(digits) {
                    lemma_decimal_grows(digits, i + 1);
                    assert(decimal_value(digits) >= decimal_value(next));
                }
            }
            return Err(SizeError::InvalidNumber);
        }
        value = value * 10 + d;
        i = i + 1;
        proof {
            assert forall|j: int|
                0 <= j < next.len() implies is_ascii_digit(#[trigger] next[j]) by {
                if j < i - 1 {
                    assert(next[j] == digits.subrange(0, i - 1)[j]);
                }
            }
        }
    }
    proof {
        assert(digits.subrange(0, n as int) =~= digits);
    }
    let (a, b) = trim_bounds(t, n);
    let ghost unit = t@.subrange(a as int, b as int);
    let ul = b - a;
    let first = if ul >= 1 { t[a] } else { ' ' };
    let second = if ul >= 2 { t[a + 1] } else { ' ' };
    proof {
        if ul >= 1 {
            assert(unit[0] == first);
        }
        if ul >= 2 {
            assert(unit[1] == second);
        }
        if ul == 0 {
            assert(unit =~= Seq::<char>::empty());
        }
        if ul == 1 {
            assert(unit =~= seq![first]);
        }
        if ul == 2 {
            assert(unit =~= seq![first, second]);
        }
        assert(seq!['b'].len() == 1 && seq!['k'].len() == 1 && seq!['m'].len() == 1);
        assert(seq!['g'].len() == 1 && seq!['t'].len() == 1);
        assert(seq!['k', 'b'].len() == 2 && seq!['m', 'b'].len() == 2);
        assert(seq!['g', 'b'].len() == 2 && seq!['t', 'b'].len() == 2);
        assert(seq!['b'][0] == 'b' && seq!['k'][0] == 'k' && seq!['m'][0] == 'm');
        assert(seq!['g'][0] == 'g' && seq!['t'][0] == 't');
        assert(seq!['k', 'b'][0] == 'k' && seq!['k', 'b'][1] == 'b');
        assert(seq!['m', 'b'][0] == 'm' && seq!['m', 'b'][1] == 'b');
        assert(seq!['g', 'b'][0] == 'g' && seq!['g', 'b'][1] == 'b');
        assert(seq!['t', 'b'][0] == 't' && seq!['t', 'b'][1] == 'b');
    }
    let unit_size: Option<u64> = if ul == 0 {
        Some(1)
    } else if ul == 1 {
        if first == 'b' {
            Some(1)
        } else if first == 'k' {
            Some(1024)
        } else if first == 'm' {
            Some(1024 * 1024)
        } else if first == 'g' {
            Some(1024 * 1024 * 1024)
        } else if first == 't' {
            Some(1024 * 1024 * 1024 * 1024)
        } else {
            None
        }
    } else if ul == 2 && second == 'b' {
        if first == 'k' {
            Some(1024)
        } else if first == 'm' {
            Some(1024 * 1024)
        } else if first == 'g' {
            Some(1024 * 1024 * 1024)
        } else if first == 't' {
            Some(1024 * 1024 * 1024 * 1024)
        } else {
            None
        }
    } else {
        None
    };
    assert(unit_size.is_some() == unit_bytes(unit).is_some());
    assert(unit_size.is_some() ==> unit_size.unwrap() as int == unit_bytes(unit).unwrap());
    match unit_size {
        None => {
            let mut suffix = String::new();
            let mut j: usize = n;
            let ghost want = t@.subrange(n as int, len as int);
            while j < len
                invariant
                    n <= j <= len == t@.len(),
                    want == t@.subrange(n as int, len as int),
                    suffix@ == want.subrange(0, j - n),
                decreases len - j,
            {
                suffix.push(t[j]);
                j = j + 1;
                assert(suffix@ =~= want.subrange(0, j - n));
            }
            assert(want.subrange(0, len - n) =~= want);
            Err(SizeError::InvalidSuffix { suffix })
        },
        Some(unit_size) => {
            if unit_size != 0 && value > u64::MAX / unit_size {
                assert(value * unit_size > u64::MAX) by (nonlinear_arith)
                    requires
                        unit_size > 0,
                        value > u64::MAX / unit_size,
                ;
                Err(SizeError::Overflow)
            } else {
                assert(value * unit_size <= u64::MAX) by (nonlinear_arith)
                    requires
                        unit_size > 0,
                        value <= u64::MAX / unit_size,
                ;
                Ok(value * unit_size)
            }
        },
    }
}

proof fn lemma_decimal_grows(d: Seq<char>, k: int)
    requires
        0 <= k <= d.len(),
        all_ascii_digits(d),
    ensures
        decimal_value(d) >= decimal_value(d.subrange(0, k)) >= 0,
    decreases d.len() - k,
{
    if k == d.len() {
        assert(d.subrange(0, k) =~= d);
        lemma_decimal_nonneg(d);
    } else {
        let e = d.drop_last();
        assert(e.subrange(0, k) =~= d.subrange(0, k));
        assert(forall|i: int| 0 <= i < e.len() ==> e[i] == d[i]);
        lemma_decimal_grows(e, k);
        assert(is_ascii_digit(d[d.len() - 1]));
    }
}

proof fn lemma_decimal_nonneg(d: Seq<char>)
    requires
        all_ascii_digits(d),
    ensures
        decimal_value(d) >= 0,
    decreases d.len(),
{
    if d.len() > 0 {
        let e = d.drop_last();
        assert(forall|i: int| 0 <= i < e.len() ==> e[i] == d[i]);
        lemma_decimal_nonneg(e);
        assert(is_ascii_digit(d[d.len() - 1]));
    }
}

/// The size that a text spells, in bytes: a decimal number, optionally
/// followed by one of the units `b`, `k`, `kb`, `m`, `mb`, `g`, `gb`, `t`,
/// `tb` in either case, with powers of 1024. White space may stand around
/// the text and between number and unit. The empty text is zero bytes.
/// For a text of ASCII characters the result is stated in full by
/// `ascii_size_of`; for any other it rests on what Unicode counts as
/// numeric and as lower case.
pub fn parse_size(s: &str) -> (r: Result<u64, SizeError>)
    ensures
        outcome_of(r) == size_of(unicode_lowercase(trimmed(s@))),
        is_ascii_text(s@) ==> outcome_of(r) == ascii_size_of(ascii_lowercase(trimmed(s@))),
{
    let raw = chars_of(s);
    let (a, b) = trim_bounds(&raw, 0);
    proof {
        assert(raw@.subrange(0, raw@.len() as int) =~= raw@);
        if is_ascii_text(s@) {
            assert(is_ascii_text(trimmed(s@)));
            assert(is_ascii_text(ascii_lowercase(trimmed(s@))));
        }
    }
    let lower = str_to_lowercase(s.substring_char(a, b));
    let chars = chars_of(lower.as_str());
    size_from_chars(&chars)
}

/// The bytes in a mebibyte.
pub const MIB: u64 = 0x10_0000;

/// The bytes in a gibibyte.
pub const GIB: u64 = 0x4000_0000;

/// `n / unit`, rounded to the nearest whole number; of two that are
/// equally near, the even one.
pub open spec fn rounded_div(n: nat, unit: nat) -> nat
    recommends
        unit > 0,
{
    let q = n / unit;
    let r = n % unit;
    if 2 * r > unit || (2 * r == unit && q % 2 == 1) {
        q + 1
    } else {
        q
    }
}

/// The step between the numbers of 53 significant bits around `n`: one
/// below 2^53, and twice as much with every bit more.
pub open spec fn coarse_step(n: u64) -> nat {
    if n < 0x20_0000_0000_0000 {
        1
    } else if n < 0x40_0000_0000_0000 {
        2
    } else if n < 0x80_0000_0000_0000 {
        4
    } else if n < 0x100_0000_0000_0000 {
        8
    } else if n < 0x200_0000_0000_0000 {
        16
    } else if n < 0x400_0000_0000_0000 {
        32
    } else if n < 0x800_0000_0000_0000 {
        64
    } else if n < 0x1000_0000_0000_0000 {
        128
    } else if n < 0x2000_0000_0000_0000 {
        256
    } else if n < 0x4000_0000_0000_0000 {
        512
    } else if n < 0x8000_0000_0000_0000 {
        1024
    } else {
        2048
    }
}

/// A number of bytes as it is shown: kept to 53 significant bits, the
/// precision of a double, rounding to the nearest and on a tie to even.
pub open spec fn shown_bytes(n: u64) -> nat {
    rounded_div(n as nat, coarse_step(n)) * coarse_step(n)
}

/// A number of tenths as text with one decimal place.
pub open spec fn one_decimal(tenths: nat) -> Seq<char> {
    decimal_text(tenths / 10) + seq!['.'] + decimal_text(tenths % 10)
}

/// A number of bytes as people read it: in gibibytes from one gibibyte
/// on, in mebibytes from one mebibyte on, each with one decimal place,
/// rounded to the nearest and on a tie to even; in bytes below that. The
/// units are written `GB`, `MB` and `B`.
pub open spec fn size_text(bytes: u64) -> Seq<char> {
    if bytes >= GIB {
        one_decimal(rounded_div(shown_bytes(bytes) * 10, GIB as nat)) + " GB"@
    } else if bytes >= MIB {
        one_decimal(rounded_div(bytes as nat * 10, MIB as nat)) + " MB"@
    } else {
        decimal_text(bytes as nat) + " B"@
    }
}

/// The step between the numbers of 53 significant bits around `n`.
fn step_of(n: u64) -> (step: u64)
    ensures
        step == coarse_step(n),
        0 < step <= 2048,
{
    if n < 0x20_0000_0000_0000 {
        1
    } else if n < 0x40_0000_0000_0000 {
        2
    } else if n < 0x80_0000_0000_0000 {
        4
    } else if n < 0x100_0000_0000_0000 {
        8
    } else if n < 0x200_0000_0000_0000 {
        16
    } else if n < 0x400_0000_0000_0000 {
        32
    } else if n < 0x800_0000_0000_0000 {
        64
    } else if n < 0x1000_0000_0000_0000 {
        128
    } else if n < 0x2000_0000_0000_0000 {
        256
    } else if n < 0x4000_0000_0000_0000 {
        512
    } else if n < 0x8000_0000_0000_0000 {
        1024
    } else {
        2048
    }
}

/// `n / unit`, rounded to the nearest whole number, on a tie to the even one.
fn round_div(n: u128, unit: u128) -> (r: u128)
    requires
        0 < unit <= u64::MAX,
        n < u128::MAX,
    ensures
        r == rounded_div(n as nat, unit as nat),
        r <= n / unit + 1,
{
    let q = n / unit;
    let r = n % unit;
    assert(q <= n) by (nonlinear_arith)
        requires
            q == n / unit,
            unit > 0,
    ;
    if 2 * r > unit || (2 * r == unit && q % 2 == 1) {
        q + 1
    } else {
        q
    }
}

/// A number of tenths as text with one decimal place, and a unit after it.
fn tenths_string(tenths: u64, unit: &str) -> (text: String)
    ensures
        text@ == one_decimal(tenths as nat) + unit@,
{
    let mut text = decimal_string(tenths / 10);
    text.append(".");
    let last = decimal_string(tenths % 10);
    text.append(last.as_str());
    text.append(unit);
    proof {
        reveal_strlit(".");
        assert("."@ =~= seq!['.']);
        assert(text@ =~= one_decimal(tenths as nat) + unit@);
    }
    text
}

/// A number of bytes as people read it; see `size_text`.
pub fn format_bytes(bytes: u64) -> (text: String)
    ensures
        text@ == size_text(bytes),
{
    if bytes >= GIB {
        let step = step_of(bytes) as u128;
        let steps = round_div(bytes as u128, step);
        assert(steps * step <= (u64::MAX as u128 + 1) * 2048) by (nonlinear_arith)
            requires
                steps <= bytes as u128 / step + 1,
                bytes as u128 / step <= u64::MAX as u128,
                0 < step <= 2048,
        ;
        let shown = steps * step;
        let tenths = round_div(shown * 10, GIB as u128);
        assert(tenths <= u64::MAX) by (nonlinear_arith)
            requires
                tenths <= (shown * 10) / 0x4000_0000 + 1,
                shown <= (u64::MAX as u128 + 1) * 2048,
        ;
        tenths_string(tenths as u64, " GB")
    } else if bytes >= MIB {
        let tenths = round_div(bytes as u128 * 10, MIB as u128);
        tenths_string(tenths as u64, " MB")
    } else {
        let mut text = decimal_string(bytes);
        text.append(" B");
        text
    }
}

} // verus!
