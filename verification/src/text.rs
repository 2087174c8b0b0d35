//! Verified helpers over sequences of characters.
//!
//! The pipeline works on a title as a `Vec<char>`; this module supplies the
//! conversions from `&str`, prefix tests, whitespace trimming, and the
//! "first occurrence" searches that the later stages are specified with.

use vstd::prelude::*;
use vstd::string::StrSliceExecFns;

verus! {

/// ASCII whitespace, as trimmed from the ends of title fragments.
pub open spec fn is_space(c: char) -> bool {
    c == ' ' || c == '\t' || c == '\n' || c == '\r'
}

/// `s` begins with `prefix`.
pub open spec fn starts_with_seq(s: Seq<char>, prefix: Seq<char>) -> bool {
    s.len() >= prefix.len() && s.subrange(0, prefix.len() as int) == prefix
}

/// Index of the first non-whitespace character at or after `i`, or `s.len()`.
pub open spec fn first_non_space_at(s: Seq<char>, i: int) -> int
    decreases s.len() - i,
    when 0 <= i <= s.len()
{
    if i >= s.len() {
        s.len() as int
    } else if is_space(s[i]) {
        first_non_space_at(s, i + 1)
    } else {
        i
    }
}

/// One past the last non-whitespace character strictly before `i`, or `0`.
pub open spec fn end_non_space_at(s: Seq<char>, i: int) -> int
    decreases i,
    when 0 <= i <= s.len()
{
    if i <= 0 {
        0
    } else if is_space(s[i - 1]) {
        end_non_space_at(s, i - 1)
    } else {
        i
    }
}

/// `s` with leading and trailing whitespace removed.
pub open spec fn trimmed(s: Seq<char>) -> Seq<char> {
    let a = first_non_space_at(s, 0);
    if a == s.len() {
        Seq::empty()
    } else {
        s.subrange(a, end_non_space_at(s, s.len() as int))
    }
}

/// Index of the first `[` or `(` at or after `i`, or `s.len()`.
pub open spec fn first_open_at(s: Seq<char>, i: int) -> int
    decreases s.len() - i,
    when 0 <= i <= s.len()
{
    if i >= s.len() {
        s.len() as int
    } else if s[i] == '[' || s[i] == '(' {
        i
    } else {
        first_open_at(s, i + 1)
    }
}

pub proof fn lemma_first_non_space_bounds(s: Seq<char>, i: int)
    requires
        0 <= i <= s.len(),
    ensures
        i <= first_non_space_at(s, i) <= s.len(),
        first_non_space_at(s, i) < s.len() ==> !is_space(s[first_non_space_at(s, i)]),
    decreases s.len() - i,
{
    if i < s.len() && is_space(s[i]) {
        lemma_first_non_space_bounds(s, i + 1);
    }
}

pub proof fn lemma_end_non_space_bounds(s: Seq<char>, i: int)
    requires
        0 <= i <= s.len(),
    ensures
        0 <= end_non_space_at(s, i) <= i,
        forall|j: int| end_non_space_at(s, i) <= j < i ==> is_space(s[j]),
        end_non_space_at(s, i) > 0 ==> !is_space(s[end_non_space_at(s, i) - 1]),
    decreases i,
{
    if i > 0 && is_space(s[i - 1]) {
        lemma_end_non_space_bounds(s, i - 1);
    }
}

/// Where `s` holds any non-whitespace character, the trim bounds are ordered.
pub proof fn lemma_trim_bounds(s: Seq<char>)
    ensures
        0 <= first_non_space_at(s, 0) <= s.len(),
        0 <= end_non_space_at(s, s.len() as int) <= s.len(),
        first_non_space_at(s, 0) < s.len() ==> first_non_space_at(s, 0) < end_non_space_at(
            s,
            s.len() as int,
        ),
{
    lemma_first_non_space_bounds(s, 0);
    lemma_end_non_space_bounds(s, s.len() as int);
    let a = first_non_space_at(s, 0);
    let b = end_non_space_at(s, s.len() as int);
    if a < s.len() && b <= a {
        assert(is_space(s[a]));
        assert(false);
    }
}

pub proof fn lemma_first_open_bounds(s: Seq<char>, i: int)
    requires
        0 <= i <= s.len(),
    ensures
        i <= first_open_at(s, i) <= s.len(),
    decreases s.len() - i,
{
    if i < s.len() && !(s[i] == '[' || s[i] == '(') {
        lemma_first_open_bounds(s, i + 1);
    }
}

/// Relies on `String::push`: appends exactly the one character `c` to `s`.
#[verifier::external_body]
pub fn push_char(s: &mut String, c: char)
    ensures
        final(s)@ == old(s)@.push(c),
{
    s.push(c);
}

/// The characters of `s`, in order, as a vector.
pub fn chars_of(s: &str) -> (r: Vec<char>)
    ensures
        r@ == s@,
{
    let n = s.unicode_len();
    let mut r: Vec<char> = Vec::new();
    let mut i: usize = 0;
    while i < n
        invariant
            i <= n,
            n == s@.len(),
            r@ == s@.subrange(0, i as int),
        decreases n - i,
    {
        r.push(s.get_char(i));
        assert(r@ =~= s@.subrange(0, i + 1 as int));
        i += 1;
    }
    assert(r@ =~= s@);
    r
}

/// Whether `c` is ASCII whitespace.
pub fn is_space_char(c: char) -> (r: bool)
    ensures
        r == is_space(c),
{
    c == ' ' || c == '\t' || c == '\n' || c == '\r'
}

/// Whether `s` begins with `prefix`.
pub fn starts_with_chars(s: &Vec<char>, prefix: &Vec<char>) -> (r: bool)
    ensures
        r == starts_with_seq(s@, prefix@),
{
    if s.len() < prefix.len() {
        return false;
    }
    let mut i: usize = 0;
    while i < prefix.len()
        invariant
            i <= prefix.len() <= s.len(),
            forall|j: int| 0 <= j < i ==> s@[j] == prefix@[j],
        decreases prefix.len() - i,
    {
        if s[i] != prefix[i] {
            assert(s@.subrange(0, prefix@.len() as int)[i as int] != prefix@[i as int]);
            return false;
        }
        i += 1;
    }
    assert(s@.subrange(0, prefix@.len() as int) =~= prefix@);
    true
}

/// The characters of `s` from `from` (inclusive) to `to` (exclusive).
pub fn sub_chars(s: &Vec<char>, from: usize, to: usize) -> (r: Vec<char>)
    requires
        from <= to <= s@.len(),
    ensures
        r@ == s@.subrange(from as int, to as int),
{
    let mut r: Vec<char> = Vec::new();
    let mut i: usize = from;
    while i < to
        invariant
            from <= i <= to <= s@.len(),
            r@ == s@.subrange(from as int, i as int),
        decreases to - i,
    {
        r.push(s[i]);
        assert(r@ =~= s@.subrange(from as int, i + 1 as int));
        i += 1;
    }
    r
}

/// `s` with leading and trailing whitespace removed.
pub fn trim_chars(s: &Vec<char>) -> (r: Vec<char>)
    ensures
        r@ == trimmed(s@),
{
    let n = s.len();
    let mut a: usize = 0;
    while a < n && is_space_char(s[a])
        invariant
            a <= n == s@.len(),
            first_non_space_at(s@, 0) == first_non_space_at(s@, a as int),
        decreases n - a,
    {
        assert(first_non_space_at(s@, a as int) == first_non_space_at(s@, a + 1 as int));
        a += 1;
    }
    assert(first_non_space_at(s@, 0) == a as int);
    if a == n {
        let r: Vec<char> = Vec::new();
        assert(r@ =~= trimmed(s@));
        return r;
    }
    let mut b: usize = n;
    while b > 0 && is_space_char(s[b - 1])
        invariant
            b <= n == s@.len(),
            end_non_space_at(s@, n as int) == end_non_space_at(s@, b as int),
        decreases b,
    {
        assert(end_non_space_at(s@, b as int) == end_non_space_at(s@, b - 1 as int));
        b -= 1;
    }
    assert(end_non_space_at(s@, n as int) == b as int);
    proof {
        lemma_trim_bounds(s@);
    }
    sub_chars(s, a, b)
}

/// Index of the first `[` or `(` in `s`, or `s.len()` where neither occurs.
pub fn find_first_open(s: &Vec<char>) -> (r: usize)
    ensures
        r as int == first_open_at(s@, 0),
        r <= s@.len(),
{
    let n = s.len();
    let mut i: usize = 0;
    while i < n && !(s[i] == '[' || s[i] == '(')
        invariant
            i <= n == s@.len(),
            first_open_at(s@, 0) == first_open_at(s@, i as int),
        decreases n - i,
    {
        assert(first_open_at(s@, i as int) == first_open_at(s@, i + 1 as int));
        i += 1;
    }
    assert(first_open_at(s@, i as int) == i as int);
    i
}

} // verus!
