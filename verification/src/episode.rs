//! Episode number extraction from the episode-and-metadata segment.
//!
//! The episode token is the longest leading run of characters before the
//! first `[` or `(`, trimmed of whitespace. A season designator such as
//! `S01E04` is normalized by discarding everything up to and through the
//! first `E`. The remaining token must be a plain decimal number: digits
//! with at most one decimal point, so that split episodes such as `12.5`
//! are representable.

use vstd::prelude::*;

use crate::errors::AppError;
use crate::text::{
    chars_of, find_first_open, first_open_at, lemma_first_open_bounds, sub_chars, trim_chars,
    trimmed,
};

verus! {

/// A normalized episode number with value `num / 10^scale`.
///
/// The two fields transcribe the decimal token exactly as it was written:
/// `num` is the token's digits read as one integer and `scale` counts the
/// digits after the decimal point, so `"04"` gives `num == 4, scale == 0`
/// and `"12.5"` gives `num == 125, scale == 1`.
#[derive(Debug, Clone, Copy, PartialEq, Eq, Structural)]
pub struct Episode {
    pub num: u64,
    pub scale: u64,
}

/// `c` is a decimal digit.
pub open spec fn is_digit(c: char) -> bool {
    '0' as u32 <= c as u32 && c as u32 <= '9' as u32
}

/// The value of the digit `c`.
pub open spec fn digit_val(c: char) -> int {
    c as u32 - '0' as u32
}

/// The token's digits read as one integer, ignoring any decimal point.
pub open spec fn dec_num(t: Seq<char>) -> int
    decreases t.len(),
{
    if t.len() == 0 {
        0
    } else {
        let c = t[t.len() - 1];
        if c == '.' {
            dec_num(t.drop_last())
        } else {
            dec_num(t.drop_last()) * 10 + digit_val(c)
        }
    }
}

/// Index of the first `.` at or after `i`, or `t.len()`.
pub open spec fn first_dot_at(t: Seq<char>, i: int) -> int
    decreases t.len() - i,
    when 0 <= i <= t.len()
{
    if i >= t.len() {
        t.len() as int
    } else if t[i] == '.' {
        i
    } else {
        first_dot_at(t, i + 1)
    }
}

/// How many digits follow the decimal point; `0` where there is none.
pub open spec fn dec_scale(t: Seq<char>) -> int {
    if first_dot_at(t, 0) < t.len() {
        t.len() - 1 - first_dot_at(t, 0)
    } else {
        0
    }
}

/// Index of the first `E` at or after `i`, or `t.len()`.
pub open spec fn first_e_at(t: Seq<char>, i: int) -> int
    decreases t.len() - i,
    when 0 <= i <= t.len()
{
    if i >= t.len() {
        t.len() as int
    } else if t[i] == 'E' {
        i
    } else {
        first_e_at(t, i + 1)
    }
}

/// `t` with everything before and through its first `E` discarded: the
/// season designator of `S01E04` is dropped, leaving `04`.
pub open spec fn e_stripped(t: Seq<char>) -> Seq<char> {
    let p = first_e_at(t, 0);
    if p < t.len() {
        t.subrange(p + 1, t.len() as int)
    } else {
        t
    }
}

/// A well-formed decimal token: non-empty, only digits and at most one
/// decimal point, and at least one digit.
pub open spec fn is_dec_token(t: Seq<char>) -> bool {
    &&& t.len() > 0
    &&& (forall|i: int| 0 <= i < t.len() ==> is_digit(#[trigger] t[i]) || t[i] == '.')
    &&& (exists|i: int| 0 <= i < t.len() && is_digit(#[trigger] t[i]))
    &&& (forall|i: int, j: int|
        0 <= i < j < t.len() ==> !((#[trigger] t[i]) == '.' && (#[trigger] t[j]) == '.'))
}

/// The normalized episode token of a segment: the run before the first
/// bracket, trimmed, with any season designator stripped.
pub open spec fn episode_token_of(seg: Seq<char>) -> Seq<char> {
    e_stripped(trimmed(seg.subrange(0, first_open_at(seg, 0))))
}

/// The segment's episode token parses as a representable decimal number.
pub open spec fn episode_parses(seg: Seq<char>) -> bool {
    let t = episode_token_of(seg);
    is_dec_token(t) && dec_num(t) <= u64::MAX
}

/// The episode encoded by the segment's token.
pub open spec fn episode_of(seg: Seq<char>) -> Episode {
    let t = episode_token_of(seg);
    Episode { num: dec_num(t) as u64, scale: dec_scale(t) as u64 }
}

pub proof fn lemma_first_dot_bounds(t: Seq<char>, i: int)
    requires
        0 <= i <= t.len(),
    ensures
        i <= first_dot_at(t, i) <= t.len(),
        first_dot_at(t, i) < t.len() ==> t[first_dot_at(t, i)] == '.',
        forall|j: int| i <= j < first_dot_at(t, i) ==> (#[trigger] t[j]) != '.',
    decreases t.len() - i,
{
    if i < t.len() && t[i] != '.' {
        lemma_first_dot_bounds(t, i + 1);
    }
}

pub proof fn lemma_first_e_bounds(t: Seq<char>, i: int)
    requires
        0 <= i <= t.len(),
    ensures
        i <= first_e_at(t, i) <= t.len(),
        first_e_at(t, i) < t.len() ==> t[first_e_at(t, i)] == 'E',
    decreases t.len() - i,
{
    if i < t.len() && t[i] != 'E' {
        lemma_first_e_bounds(t, i + 1);
    }
}

/// A token of digits and dots never encodes a negative value.
pub proof fn lemma_dec_num_nonneg(t: Seq<char>)
    requires
        forall|i: int| 0 <= i < t.len() ==> is_digit(#[trigger] t[i]) || t[i] == '.',
    ensures
        dec_num(t) >= 0,
    decreases t.len(),
{
    if t.len() > 0 {
        assert(forall|i: int|
            0 <= i < t.drop_last().len() ==> is_digit(#[trigger] t.drop_last()[i])
                || t.drop_last()[i] == '.');
        lemma_dec_num_nonneg(t.drop_last());
    }
}

/// Reading more digits never shrinks the value: the value of any prefix of
/// a token of digits and dots is at most the value of the whole token.
pub proof fn lemma_dec_num_prefix_le(t: Seq<char>, i: int)
    requires
        0 <= i <= t.len(),
        forall|k: int| 0 <= k < t.len() ==> is_digit(#[trigger] t[k]) || t[k] == '.',
    ensures
        dec_num(t.subrange(0, i)) <= dec_num(t),
    decreases t.len() - i,
{
    if i == t.len() {
        assert(t.subrange(0, i) =~= t);
    } else {
        let a = t.subrange(0, i);
        let b = t.subrange(0, i + 1);
        assert(b.drop_last() =~= a);
        assert(forall|k: int| 0 <= k < a.len() ==> is_digit(#[trigger] a[k]) || a[k] == '.');
        lemma_dec_num_nonneg(a);
        if b[b.len() - 1] != '.' {
            assert(is_digit(t[i]));
            assert(digit_val(t[i]) >= 0);
        }
        assert(dec_num(a) <= dec_num(b));
        lemma_dec_num_prefix_le(t, i + 1);
    }
}

proof fn lemma_first_e_none(u: Seq<char>, i: int)
    requires
        0 <= i <= u.len(),
        forall|j: int| 0 <= j < u.len() ==> (#[trigger] u[j]) != 'E',
    ensures
        first_e_at(u, i) == u.len(),
    decreases u.len() - i,
{
    if i < u.len() {
        lemma_first_e_none(u, i + 1);
    }
}

/// Season-designator stripping is idempotent: once the episode token has
/// been reduced to a decimal number, stripping it again changes nothing, so
/// a title writing `S01E04` parses to the same episode as one writing `04`.
pub proof fn law_e_strip_idempotent(t: Seq<char>)
    requires
        is_dec_token(e_stripped(t)),
    ensures
        e_stripped(e_stripped(t)) == e_stripped(t),
        dec_num(e_stripped(e_stripped(t))) == dec_num(e_stripped(t)),
        dec_scale(e_stripped(e_stripped(t))) == dec_scale(e_stripped(t)),
{
    let u = e_stripped(t);
    assert forall|j: int| 0 <= j < u.len() implies (#[trigger] u[j]) != 'E' by {
        assert(is_digit(u[j]) || u[j] == '.');
    }
    lemma_first_e_none(u, 0);
}

/// Whether `c` is a decimal digit.
pub fn is_digit_char(c: char) -> (r: bool)
    ensures
        r == is_digit(c),
{
    let v = c as u32;
    '0' as u32 <= v && v <= '9' as u32
}

/// Index of the first `.` in `s` at or after `from`, or `s.len()`.
fn find_dot_from(s: &Vec<char>, from: usize) -> (r: usize)
    requires
        from <= s@.len(),
    ensures
        r as int == first_dot_at(s@, from as int),
{
    let n = s.len();
    let mut i: usize = from;
    while i < n && s[i] != '.'
        invariant
            from <= i <= n == s@.len(),
            first_dot_at(s@, from as int) == first_dot_at(s@, i as int),
        decreases n - i,
    {
        assert(first_dot_at(s@, i as int) == first_dot_at(s@, i + 1 as int));
        i += 1;
    }
    assert(first_dot_at(s@, i as int) == i as int);
    i
}

/// Index of the first `E` in `s`, or `s.len()`.
fn find_first_e(s: &Vec<char>) -> (r: usize)
    ensures
        r as int == first_e_at(s@, 0),
        r <= s@.len(),
{
    let n = s.len();
    let mut i: usize = 0;
    while i < n && s[i] != 'E'
        invariant
            i <= n == s@.len(),
            first_e_at(s@, 0) == first_e_at(s@, i as int),
        decreases n - i,
    {
        assert(first_e_at(s@, i as int) == first_e_at(s@, i + 1 as int));
        i += 1;
    }
    assert(first_e_at(s@, i as int) == i as int);
    i
}

/// Parses the episode from a segment already split into characters.
#[verifier::loop_isolation(false)]
pub fn episode_from_chars(seg: &Vec<char>) -> (r: Result<Episode, AppError>)
    ensures
        episode_parses(seg@) ==> r == Ok::<Episode, AppError>(episode_of(seg@)),
        !episode_parses(seg@) ==> r == Err::<Episode, AppError>(AppError::ParseTorrentTitleError),
{
    proof {
        lemma_first_open_bounds(seg@, 0);
    }
    let p = find_first_open(seg);
    let raw = sub_chars(seg, 0, p);
    let t0 = trim_chars(&raw);
    proof {
        lemma_first_e_bounds(t0@, 0);
    }
    let e = find_first_e(&t0);
    let tok: Vec<char> = if e < t0.len() {
        sub_chars(&t0, e + 1, t0.len())
    } else {
        let whole = sub_chars(&t0, 0, t0.len());
        assert(whole@ =~= t0@);
        whole
    };
    assert(tok@ == episode_token_of(seg@));

    let n = tok.len();
    if n == 0 {
        return Err(AppError::ParseTorrentTitleError);
    }
    // At most one decimal point.
    let d = find_dot_from(&tok, 0);
    proof {
        lemma_first_dot_bounds(tok@, 0);
    }
    if d < n {
        proof {
            lemma_first_dot_bounds(tok@, d + 1);
        }
        let d2 = find_dot_from(&tok, d + 1);
        if d2 < n {
            assert(tok@[d as int] == '.' && tok@[d2 as int] == '.');
            assert(!is_dec_token(tok@));
            return Err(AppError::ParseTorrentTitleError);
        }
    }
    // Only digits and dots, with at least one digit.
    let mut saw_digit = false;
    let mut i: usize = 0;
    while i < n
        invariant
            i <= n,
            forall|j: int| 0 <= j < i ==> is_digit(#[trigger] tok@[j]) || tok@[j] == '.',
            saw_digit == exists|j: int| 0 <= j < i && is_digit(#[trigger] tok@[j]),
        decreases n - i,
    {
        let c = tok[i];
        if is_digit_char(c) {
            saw_digit = true;
            assert(is_digit(tok@[i as int]));
        } else if c != '.' {
            assert(!(is_digit(tok@[i as int]) || tok@[i as int] == '.'));
            assert(!is_dec_token(tok@));
            return Err(AppError::ParseTorrentTitleError);
        }
        i += 1;
    }
    if !saw_digit {
        assert(!is_dec_token(tok@));
        return Err(AppError::ParseTorrentTitleError);
    }
    assert(is_dec_token(tok@));

    // Accumulate the digits, refusing a value the field cannot hold.
    let mut num: u64 = 0;
    let mut i2: usize = 0;
    while i2 < n
        invariant
            i2 <= n,
            num as int == dec_num(tok@.subrange(0, i2 as int)),
        decreases n - i2,
    {
        let c = tok[i2];
        proof {
            assert(tok@.subrange(0, i2 + 1 as int).drop_last() =~= tok@.subrange(0, i2 as int));
        }
        if c != '.' {
            assert(is_digit(tok@[i2 as int]));
            let dv = (c as u32 - '0' as u32) as u64;
            assert(dv as int == digit_val(tok@[i2 as int]));
            if num > (u64::MAX - dv) / 10 {
                proof {
                    assert(dec_num(tok@.subrange(0, i2 + 1 as int)) > u64::MAX);
                    lemma_dec_num_prefix_le(tok@, i2 + 1);
                }
                return Err(AppError::ParseTorrentTitleError);
            }
            num = num * 10 + dv;
        }
        i2 += 1;
    }
    assert(tok@.subrange(0, n as int) =~= tok@);
    assert(num as int == dec_num(tok@));

    let scale: u64 = if d < n {
        (n - 1 - d) as u64
    } else {
        0
    };
    assert(scale as int == dec_scale(tok@));
    Ok(Episode { num, scale })
}

/// Extracts the normalized episode number from the episode-and-metadata
/// segment of a title, or rejects the segment.
///
/// Succeeds exactly where the segment's episode token, after trimming and
/// season-designator stripping, is a decimal number whose digits fit the
/// episode's integer field; every other segment is rejected as
/// `ParseTorrentTitleError`.
pub fn get_episode(episode_and_metadata: &str) -> (r: Result<Episode, AppError>)
    ensures
        episode_parses(episode_and_metadata@) ==> r == Ok::<Episode, AppError>(
            episode_of(episode_and_metadata@),
        ),
        !episode_parses(episode_and_metadata@) ==> r == Err::<Episode, AppError>(
            AppError::ParseTorrentTitleError,
        ),
{
    let seg = chars_of(episode_and_metadata);
    episode_from_chars(&seg)
}

} // verus!
