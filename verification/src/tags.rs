//! Tag extraction from the episode-and-metadata segment, and the subset
//! check against a rule's required tags.
//!
//! From the first `[` or `(` to the end of the segment, characters are
//! accumulated into a current token; every `]` or `)` closes the token,
//! which is emitted with its brackets kept, in order of appearance. An
//! unterminated trailing fragment is still emitted verbatim, so callers
//! must not assume every tag is well bracketed. A rule is satisfied when
//! each required tag equals some extracted tag: an existence check, not
//! sensitive to order or to repeated tags.

use vstd::prelude::*;

use crate::text::{chars_of, find_first_open, first_open_at, push_char};

verus! {

/// `c` closes a tag.
pub open spec fn is_closer(c: char) -> bool {
    c == ']' || c == ')'
}

/// The tags read from `s[i..]` with `acc` as the partially read token.
pub open spec fn scan_tags_at(s: Seq<char>, i: int, acc: Seq<char>) -> Seq<Seq<char>>
    decreases s.len() - i,
    when 0 <= i <= s.len()
{
    if i >= s.len() {
        if acc.len() == 0 {
            Seq::empty()
        } else {
            seq![acc]
        }
    } else {
        let acc2 = acc.push(s[i]);
        if is_closer(s[i]) {
            seq![acc2] + scan_tags_at(s, i + 1, Seq::empty())
        } else {
            scan_tags_at(s, i + 1, acc2)
        }
    }
}

/// The tags of a segment: the scan starts at the first `[` or `(`; a
/// segment without one has no tags.
pub open spec fn tags_of(seg: Seq<char>) -> Seq<Seq<char>> {
    let p = first_open_at(seg, 0);
    if p == seg.len() {
        Seq::empty()
    } else {
        scan_tags_at(seg, p, Seq::empty())
    }
}

/// The character sequences of a sequence of strings.
pub open spec fn strings_view(v: Seq<String>) -> Seq<Seq<char>> {
    Seq::new(v.len(), |i: int| v[i]@)
}

/// Every required tag occurs among the extracted tags.
pub open spec fn all_tags_present(kws: Seq<Seq<char>>, tags: Seq<Seq<char>>) -> bool {
    forall|i: int| 0 <= i < kws.len() ==> tags.contains(#[trigger] kws[i])
}

/// `c` opens a tag.
pub open spec fn is_opener(c: char) -> bool {
    c == '[' || c == '('
}

/// A whole tag as the scanner emits one: at least one character, closed by
/// its last character and by nothing earlier.
pub open spec fn well_bracketed(tag: Seq<char>) -> bool {
    &&& tag.len() >= 1
    &&& is_closer(tag[tag.len() - 1])
    &&& forall|i: int| 0 <= i < tag.len() - 1 ==> !is_closer(#[trigger] tag[i])
}

/// The tags written out one after the other.
pub open spec fn concat_of(tags: Seq<Seq<char>>) -> Seq<char>
    decreases tags.len(),
{
    if tags.len() == 0 {
        Seq::empty()
    } else {
        tags[0] + concat_of(tags.skip(1))
    }
}

proof fn lemma_scan_one_tag(s: Seq<char>, i: int, acc: Seq<char>, e: int)
    requires
        0 <= i <= e < s.len(),
        is_closer(s[e]),
        forall|j: int| i <= j < e ==> !is_closer(#[trigger] s[j]),
    ensures
        scan_tags_at(s, i, acc) == seq![acc + s.subrange(i, e + 1)] + scan_tags_at(
            s,
            e + 1,
            Seq::empty(),
        ),
    decreases e - i,
{
    if i == e {
        assert(acc.push(s[i]) =~= acc + s.subrange(i, e + 1));
    } else {
        lemma_scan_one_tag(s, i + 1, acc.push(s[i]), e);
        assert(acc.push(s[i]) + s.subrange(i + 1, e + 1) =~= acc + s.subrange(i, e + 1));
    }
}

/// Tag extraction is order-preserving and keeps each tag whole, brackets
/// and all: run from position `i` over a stretch of whole tags written one
/// after the other, the scanner returns exactly those tags, in their order
/// of appearance.
pub proof fn law_tags_in_order(s: Seq<char>, i: int, tags: Seq<Seq<char>>)
    requires
        0 <= i <= s.len(),
        s.subrange(i, s.len() as int) == concat_of(tags),
        forall|k: int| 0 <= k < tags.len() ==> well_bracketed(#[trigger] tags[k]),
    ensures
        scan_tags_at(s, i, Seq::empty()) == tags,
    decreases tags.len(),
{
    if tags.len() == 0 {
        assert(s.subrange(i, s.len() as int).len() == 0);
        assert(scan_tags_at(s, i, Seq::empty()) =~= tags);
    } else {
        let t0 = tags[0];
        let rest = tags.skip(1);
        assert(well_bracketed(t0));
        let e = i + t0.len() - 1;
        assert(s.subrange(i, s.len() as int) == t0 + concat_of(rest));
        assert forall|j: int| i <= j <= e implies s[j] == t0[j - i] by {
            assert(s.subrange(i, s.len() as int)[j - i] == s[j]);
            assert((t0 + concat_of(rest))[j - i] == t0[j - i]);
        }
        assert(is_closer(s[e]));
        assert forall|j: int| i <= j < e implies !is_closer(#[trigger] s[j]) by {
            assert(s[j] == t0[j - i]);
        }
        lemma_scan_one_tag(s, i, Seq::empty(), e);
        assert(Seq::<char>::empty() + s.subrange(i, e + 1) =~= s.subrange(i, e + 1));
        assert(s.subrange(i, e + 1) =~= t0);
        assert(s.len() - (e + 1) == concat_of(rest).len());
        assert forall|m: int| 0 <= m < concat_of(rest).len() implies s[e + 1 + m] == concat_of(
            rest,
        )[m] by {
            assert(s.subrange(i, s.len() as int)[t0.len() + m] == s[e + 1 + m]);
            assert((t0 + concat_of(rest))[t0.len() + m] == concat_of(rest)[m]);
        }
        assert(s.subrange(e + 1, s.len() as int) =~= concat_of(rest));
        law_tags_in_order(s, e + 1, rest);
        assert(seq![t0] + rest =~= tags);
    }
}

proof fn lemma_first_open_none_until(s: Seq<char>, i: int, q: int)
    requires
        0 <= i <= q <= s.len(),
        forall|j: int| i <= j < q ==> !is_opener(#[trigger] s[j]),
        q < s.len() ==> is_opener(s[q]),
    ensures
        first_open_at(s, i) == q,
    decreases q - i,
{
    if i < q {
        lemma_first_open_none_until(s, i + 1, q);
    }
}

/// Extraction over a whole segment: whatever stands before the first
/// opening bracket is ignored, and a stretch of whole tags after it is
/// returned exactly, in order.
pub proof fn law_tags_of_segment(pre: Seq<char>, tags: Seq<Seq<char>>)
    requires
        forall|j: int| 0 <= j < pre.len() ==> !is_opener(#[trigger] pre[j]),
        forall|k: int| 0 <= k < tags.len() ==> well_bracketed(#[trigger] tags[k]),
        tags.len() > 0 ==> is_opener(tags[0][0]),
    ensures
        tags_of(pre + concat_of(tags)) == tags,
{
    let s = pre + concat_of(tags);
    if tags.len() == 0 {
        assert(s =~= pre);
        lemma_first_open_none_until(pre, 0, pre.len() as int);
        assert(tags_of(s) =~= tags);
    } else {
        assert(concat_of(tags) == tags[0] + concat_of(tags.skip(1)));
        assert(concat_of(tags).len() > 0);
        assert(s[pre.len() as int] == concat_of(tags)[0]);
        assert(concat_of(tags)[0] == tags[0][0]);
        assert forall|j: int| 0 <= j < pre.len() implies !is_opener(#[trigger] s[j]) by {
            assert(s[j] == pre[j]);
        }
        lemma_first_open_none_until(s, 0, pre.len() as int);
        assert(s.subrange(pre.len() as int, s.len() as int) =~= concat_of(tags));
        law_tags_in_order(s, pre.len() as int, tags);
    }
}

/// Tag matching is an existence check: a set of required tags satisfied by
/// some extracted tags stays satisfied however many other tags stand
/// around them, before or after.
pub proof fn law_tag_match_ignores_others(
    kws: Seq<Seq<char>>,
    tags: Seq<Seq<char>>,
    before: Seq<Seq<char>>,
    after: Seq<Seq<char>>,
)
    requires
        all_tags_present(kws, tags),
    ensures
        all_tags_present(kws, before + tags + after),
{
    assert forall|i: int| 0 <= i < kws.len() implies (before + tags + after).contains(
        #[trigger] kws[i],
    ) by {
        let j = choose|j: int| 0 <= j < tags.len() && tags[j] == kws[i];
        assert((before + tags + after)[before.len() + j] == tags[j]);
    }
}

/// Extracts the tags from a segment already split into characters.
#[verifier::loop_isolation(false)]
pub fn tags_from_chars(seg: &Vec<char>) -> (r: Vec<String>)
    ensures
        strings_view(r@) == tags_of(seg@),
{
    let n = seg.len();
    let p = find_first_open(seg);
    if p == n {
        let r: Vec<String> = Vec::new();
        assert(strings_view(r@) =~= tags_of(seg@));
        return r;
    }
    let mut out: Vec<String> = Vec::new();
    let mut cur: String = String::new();
    let mut cur_nonempty = false;
    let mut i: usize = p;
    while i < n
        invariant
            p <= i <= n,
            cur_nonempty == (cur@.len() != 0),
            tags_of(seg@) == strings_view(out@) + scan_tags_at(seg@, i as int, cur@),
        decreases n - i,
    {
        let ghost acc = cur@;
        let ghost prev_out = out@;
        let c = seg[i];
        push_char(&mut cur, c);
        if c == ']' || c == ')' {
            out.push(cur);
            cur = String::new();
            cur_nonempty = false;
            proof {
                assert(strings_view(out@) =~= strings_view(prev_out).push(acc.push(c)));
                assert(strings_view(prev_out) + (seq![acc.push(c)] + scan_tags_at(
                    seg@,
                    i + 1,
                    Seq::empty(),
                )) =~= strings_view(out@) + scan_tags_at(seg@, i + 1, Seq::empty()));
            }
        } else {
            cur_nonempty = true;
        }
        i += 1;
    }
    if cur_nonempty {
        let ghost prev_out = out@;
        let ghost acc = cur@;
        out.push(cur);
        proof {
            assert(scan_tags_at(seg@, n as int, acc) =~= seq![acc]);
            assert(strings_view(out@) =~= strings_view(prev_out).push(acc));
            assert(strings_view(prev_out) + seq![acc] =~= strings_view(out@));
        }
    } else {
        proof {
            assert(scan_tags_at(seg@, n as int, cur@) =~= Seq::<Seq<char>>::empty());
            assert(strings_view(out@) + Seq::<Seq<char>>::empty() =~= strings_view(out@));
        }
    }
    out
}

/// Extracts the bracketed metadata tags of a title segment, in order of
/// appearance, each with its brackets kept.
pub fn get_metadata_tags(episode_and_metadata: &str) -> (r: Vec<String>)
    ensures
        strings_view(r@) == tags_of(episode_and_metadata@),
{
    let seg = chars_of(episode_and_metadata);
    tags_from_chars(&seg)
}

/// Whether some extracted tag equals `kw`.
#[verifier::loop_isolation(false)]
pub fn contains_string(tags: &Vec<String>, kw: &String) -> (r: bool)
    ensures
        r == strings_view(tags@).contains(kw@),
{
    let n = tags.len();
    let mut j: usize = 0;
    while j < n
        invariant
            j <= n,
            forall|t: int| 0 <= t < j ==> (#[trigger] tags@[t])@ != kw@,
        decreases n - j,
    {
        let tj = &tags[j];
        if tj.eq(kw) {
            assert(strings_view(tags@)[j as int] == kw@);
            return true;
        }
        j += 1;
    }
    assert forall|t: int| 0 <= t < strings_view(tags@).len() implies strings_view(tags@)[t]
        != kw@ by {
        assert(strings_view(tags@)[t] == tags@[t]@);
    }
    false
}

} // verus!
