//! The patterns by which keys are listed: an exact text, or a text with a
//! star at its start, at its end, or at both.

use vstd::prelude::*;

verus! {

/// The number of stars at the start of `p`.
pub open spec fn leading_stars(p: Seq<char>) -> int
    decreases p.len(),
{
    if p.len() > 0 && p[0] == '*' {
        1 + leading_stars(p.drop_first())
    } else {
        0
    }
}

/// The number of stars at the end of `p`.
pub open spec fn trailing_stars(p: Seq<char>) -> int
    decreases p.len(),
{
    if p.len() > 0 && p.last() == '*' {
        1 + trailing_stars(p.drop_last())
    } else {
        0
    }
}

/// `p` without the stars at its two ends.
pub open spec fn without_stars(p: Seq<char>) -> Seq<char> {
    let a = leading_stars(p);
    if a == p.len() {
        Seq::empty()
    } else {
        p.subrange(a, p.len() - trailing_stars(p))
    }
}

/// Whether `part` stands in `k` at position `at`.
pub open spec fn occurs_at(k: Seq<char>, part: Seq<char>, at: int) -> bool {
    0 <= at && at + part.len() <= k.len() && k.subrange(at, at + part.len()) == part
}

/// Whether `part` stands somewhere in `k`.
pub open spec fn contains_text(k: Seq<char>, part: Seq<char>) -> bool {
    exists|at: int| occurs_at(k, part, at)
}

/// Whether a key matches a pattern. A pattern that starts and ends with a
/// star matches the keys that contain what stands between the stars; one
/// that only starts with a star, the keys that end with the rest; one that
/// only ends with a star, the keys that start with the rest; any other
/// pattern matches itself alone.
pub open spec fn glob_matches(p: Seq<char>, k: Seq<char>) -> bool {
    let core = without_stars(p);
    let starts_wild = p.len() > 0 && p[0] == '*';
    let ends_wild = p.len() > 0 && p.last() == '*';
    if starts_wild && ends_wild {
        contains_text(k, core)
    } else if starts_wild {
        occurs_at(k, core, k.len() - core.len())
    } else if ends_wild {
        occurs_at(k, core, 0)
    } else {
        k == core
    }
}

proof fn lemma_leading_stars(p: Seq<char>, n: int)
    requires
        0 <= n <= p.len(),
        forall|i: int| 0 <= i < n ==> #[trigger] p[i] == '*',
        n < p.len() ==> p[n] != '*',
    ensures
        leading_stars(p) == n,
    decreases n,
{
    if n > 0 {
        let u = p.drop_first();
        assert(forall|i: int| 0 <= i < n - 1 ==> u[i] == p[i + 1]);
        lemma_leading_stars(u, n - 1);
    }
}

proof fn lemma_trailing_stars(p: Seq<char>, n: int)
    requires
        0 <= n <= p.len(),
        forall|i: int| p.len() - n <= i < p.len() ==> #[trigger] p[i] == '*',
        n < p.len() ==> p[p.len() - n - 1] != '*',
    ensures
        trailing_stars(p) == n,
    decreases n,
{
    if n > 0 {
        let u = p.drop_last();
        assert(forall|i: int| 0 <= i < u.len() ==> u[i] == p[i]);
        lemma_trailing_stars(u, n - 1);
    }
}

/// The bounds of `p` without the stars at its two ends.
fn star_bounds(p: &Vec<char>) -> (r: (usize, usize))
    ensures
        r.0 <= r.1 <= p@.len(),
        p@.subrange(r.0 as int, r.1 as int) == without_stars(p@),
{
    let n = p.len();
    let mut a: usize = 0;
    while a < n && p[a] == '*'
        invariant
            n == p@.len(),
            a <= n,
            forall|i: int| 0 <= i < a ==> #[trigger] p@[i] == '*',
        decreases n - a,
    {
        a = a + 1;
    }
    proof {
        lemma_leading_stars(p@, a as int);
    }
    if a == n {
        assert(p@.subrange(a as int, a as int) =~= Seq::<char>::empty());
        return (a, a);
    }
    let mut b: usize = n;
    while b > a + 1 && p[b - 1] == '*'
        invariant
            n == p@.len(),
            a < b <= n,
            p@[a as int] != '*',
            forall|i: int| b <= i < n ==> #[trigger] p@[i] == '*',
        decreases b,
    {
        b = b - 1;
    }
    proof {
        lemma_trailing_stars(p@, n - b);
    }
    (a, b)
}

/// Whether the characters of `p` from `a` up to `b` stand in `k` at `at`.
#[verifier::loop_isolation(false)]
fn part_at(k: &Vec<char>, p: &Vec<char>, a: usize, b: usize, at: usize) -> (r: bool)
    requires
        a <= b <= p@.len(),
        at + (b - a) <= k@.len(),
    ensures
        r == occurs_at(k@, p@.subrange(a as int, b as int), at as int),
{
    let ghost part = p@.subrange(a as int, b as int);
    let klen = k.len();
    let mut i: usize = 0;
    while i < b - a
        invariant
            a <= b <= p@.len(),
            at + (b - a) <= k@.len(),
            i <= b - a,
            part == p@.subrange(a as int, b as int),
            forall|j: int| 0 <= j < i ==> k@[at + j] == #[trigger] part[j],
        decreases b - a - i,
    {
        if k[at + i] != p[a + i] {
            proof {
                assert(k@.subrange(at as int, at + part.len())[i as int] == k@[at + i]);
                assert(part[i as int] == p@[a + i]);
            }
            return false;
        }
        i = i + 1;
    }
    assert(k@.subrange(at as int, at + part.len()) =~= part);
    true
}

/// Whether `part` stands somewhere in `k`.
#[verifier::loop_isolation(false)]
pub fn find_text(k: &Vec<char>, part: &Vec<char>) -> (found: bool)
    ensures
        found == contains_text(k@, part@),
{
    let m = part.len();
    let kl = k.len();
    assert(part@.subrange(0, m as int) =~= part@);
    if m > kl {
        return false;
    }
    let last = kl - m;
    let mut at: usize = 0;
    loop
        invariant
            at <= last,
            forall|j: int| 0 <= j < at ==> !occurs_at(k@, part@, j),
        decreases last - at,
    {
        if part_at(k, part, 0, m, at) {
            return true;
        }
        if at == last {
            return false;
        }
        at = at + 1;
    }
}

/// Whether the key matches the pattern.
#[verifier::loop_isolation(false)]
#[verifier::rlimit(40)]
pub fn glob_match(pattern: &Vec<char>, key: &Vec<char>) -> (r: bool)
    ensures
        r == glob_matches(pattern@, key@),
{
    let n = pattern.len();
    let starts_wild = n > 0 && pattern[0] == '*';
    let ends_wild = n > 0 && pattern[n - 1] == '*';
    let (a, b) = star_bounds(pattern);
    let ghost core = pattern@.subrange(a as int, b as int);
    let m = b - a;
    let kl = key.len();
    if starts_wild && ends_wild {
        if m > kl {
            return false;
        }
        let last = kl - m;
        let mut at: usize = 0;
        loop
            invariant
                at <= last,
                forall|j: int| 0 <= j < at ==> !occurs_at(key@, core, j),
            decreases last - at,
        {
            if part_at(key, pattern, a, b, at) {
                return true;
            }
            if at == last {
                return false;
            }
            at = at + 1;
        }
    } else if starts_wild {
        m <= kl && part_at(key, pattern, a, b, kl - m)
    } else if ends_wild {
        m <= kl && part_at(key, pattern, a, b, 0)
    } else {
        if m != kl {
            return false;
        }
        let r = part_at(key, pattern, a, b, 0);
        proof {
            assert(key@.subrange(0, kl as int) =~= key@);
        }
        r
    }
}

} // verus!
