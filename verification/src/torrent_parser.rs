//! The title-matching pipeline.
//!
//! Five ordered stages over a raw torrent title, each pure: verify the
//! leading `[<fansub>]` group token, verify the show-name prefix, isolate
//! the trailing episode-and-metadata segment, parse the episode number, and
//! check the required tags. The first failing stage short-circuits with its
//! typed rejection; the whole pipeline is a function of the title and the
//! rule alone.

use vstd::prelude::*;

use crate::config::AnimeByFansub;
use crate::episode::{episode_from_chars, episode_of, episode_parses, Episode};
use crate::errors::AppError;
use crate::tags::{all_tags_present, strings_view, tags_from_chars, tags_of};
use crate::text::{chars_of, starts_with_chars, starts_with_seq, sub_chars, trim_chars, trimmed};

verus! {

/// A successful match: the normalized episode and the title's tags in
/// order of appearance.
#[derive(Debug)]
pub struct TorrentMetadata {
    pub episode: Episode,
    pub tags: Vec<String>,
}

/// The group token that must open the title: `[<fansub>]`.
pub open spec fn bracketed(fs: Seq<char>) -> Seq<char> {
    seq!['['] + fs + seq![']']
}

/// The separator tolerated between the show name and the episode.
pub open spec fn separator() -> Seq<char> {
    seq![' ', '-', ' ']
}

/// The title after the group token, trimmed of surrounding whitespace.
pub open spec fn rest_after_fansub(t: Seq<char>, fs: Seq<char>) -> Seq<char> {
    trimmed(t.subrange(bracketed(fs).len() as int, t.len() as int))
}

/// The episode-and-metadata segment: the rest after the show name, with one
/// leading `" - "` separator stripped where present, trimmed.
pub open spec fn segment_of(rest: Seq<char>, nm: Seq<char>) -> Seq<char> {
    let after = rest.subrange(nm.len() as int, rest.len() as int);
    let after2 = if starts_with_seq(after, separator()) {
        after.subrange(3, after.len() as int)
    } else {
        after
    };
    trimmed(after2)
}

/// What the pipeline returns for a title `t` and a rule with show name
/// `nm`, fansub `fs` and required tags `kws`: the stages run in order and
/// the first failure is the result.
pub open spec fn pipeline_spec(t: Seq<char>, nm: Seq<char>, fs: Seq<char>, kws: Seq<Seq<char>>) -> Result<
    (Episode, Seq<Seq<char>>),
    AppError,
> {
    if !starts_with_seq(t, bracketed(fs)) {
        Err(AppError::FansubNotMatching)
    } else {
        let rest = rest_after_fansub(t, fs);
        if !starts_with_seq(rest, nm) {
            Err(AppError::AnimeTitleNotMatching)
        } else {
            let seg = segment_of(rest, nm);
            if !episode_parses(seg) {
                Err(AppError::ParseTorrentTitleError)
            } else if !all_tags_present(kws, tags_of(seg)) {
                Err(AppError::MissingTag)
            } else {
                Ok((episode_of(seg), tags_of(seg)))
            }
        }
    }
}

/// The `[<fansub>]` token as characters.
#[verifier::loop_isolation(false)]
fn bracket_token(fs: &Vec<char>) -> (r: Vec<char>)
    ensures
        r@ == bracketed(fs@),
{
    let mut r: Vec<char> = Vec::new();
    r.push('[');
    assert(r@ =~= seq!['['] + fs@.subrange(0, 0));
    let mut i: usize = 0;
    while i < fs.len()
        invariant
            i <= fs@.len(),
            r@ == seq!['['] + fs@.subrange(0, i as int),
        decreases fs@.len() - i,
    {
        r.push(fs[i]);
        assert(r@ =~= seq!['['] + fs@.subrange(0, i + 1 as int));
        i += 1;
    }
    assert(fs@.subrange(0, fs@.len() as int) =~= fs@);
    r.push(']');
    assert(r@ =~= bracketed(fs@));
    r
}

/// Runs the whole pipeline: either the normalized episode and the title's
/// tags, or the first stage's typed rejection.
///
/// The result is exactly `pipeline_spec` of the title and the rule: the
/// title must open with `[<fansub>]`, the trimmed rest must open with the
/// show name, the remaining segment's episode token must parse as a decimal
/// number, and every required tag must occur among the extracted tags.
#[verifier::loop_isolation(false)]
pub fn torrent_episode_if_matches_anime_entry(
    torrent_title: &str,
    fansub_entry: &AnimeByFansub,
) -> (r: Result<TorrentMetadata, AppError>)
    ensures
        ({
            let ps = pipeline_spec(
                torrent_title@,
                fansub_entry.name@,
                fansub_entry.fansub@,
                strings_view(fansub_entry.keywords@),
            );
            match r {
                Ok(m) => ps == Ok::<(Episode, Seq<Seq<char>>), AppError>(
                    (m.episode, strings_view(m.tags@)),
                ),
                Err(e) => ps == Err::<(Episode, Seq<Seq<char>>), AppError>(e),
            }
        }),
{
    let title = chars_of(torrent_title);
    let fs = chars_of(fansub_entry.fansub.as_str());
    let tok = bracket_token(&fs);
    if !starts_with_chars(&title, &tok) {
        return Err(AppError::FansubNotMatching);
    }
    let after_fs = sub_chars(&title, tok.len(), title.len());
    let rest = trim_chars(&after_fs);
    assert(rest@ == rest_after_fansub(torrent_title@, fansub_entry.fansub@));

    let name = chars_of(fansub_entry.name.as_str());
    if !starts_with_chars(&rest, &name) {
        return Err(AppError::AnimeTitleNotMatching);
    }
    let after_name = sub_chars(&rest, name.len(), rest.len());
    let mut sep: Vec<char> = Vec::new();
    sep.push(' ');
    sep.push('-');
    sep.push(' ');
    assert(sep@ =~= separator());
    let after_sep = if starts_with_chars(&after_name, &sep) {
        sub_chars(&after_name, 3, after_name.len())
    } else {
        after_name
    };
    let seg = trim_chars(&after_sep);
    assert(seg@ == segment_of(rest@, fansub_entry.name@));

    let episode = match episode_from_chars(&seg) {
        Ok(e) => e,
        Err(e) => {
            return Err(e);
        },
    };
    let tags = tags_from_chars(&seg);

    let nk = fansub_entry.keywords.len();
    let mut k: usize = 0;
    while k < nk
        invariant
            k <= nk == fansub_entry.keywords@.len(),
            forall|i: int|
                0 <= i < k ==> tags_of(seg@).contains(
                    #[trigger] strings_view(fansub_entry.keywords@)[i],
                ),
        decreases nk - k,
    {
        if !contains_keyword(&tags, &fansub_entry.keywords, k) {
            assert(!all_tags_present(strings_view(fansub_entry.keywords@), tags_of(seg@)));
            return Err(AppError::MissingTag);
        }
        k += 1;
    }
    assert(all_tags_present(strings_view(fansub_entry.keywords@), tags_of(seg@)));
    Ok(TorrentMetadata { episode, tags })
}

/// Whether the `k`-th required tag occurs among the extracted tags.
fn contains_keyword(tags: &Vec<String>, keywords: &Vec<String>, k: usize) -> (r: bool)
    requires
        k < keywords@.len(),
    ensures
        r == strings_view(tags@).contains(strings_view(keywords@)[k as int]),
{
    let kw = &keywords[k];
    crate::tags::contains_string(tags, kw)
}

/// A title that does not open with the rule's bracketed group token is
/// rejected as `FansubNotMatching` before any later stage runs, whatever
/// the rule's show name and required tags.
pub proof fn law_fansub_gate(t: Seq<char>, nm: Seq<char>, fs: Seq<char>, kws: Seq<Seq<char>>)
    requires
        !starts_with_seq(t, bracketed(fs)),
    ensures
        pipeline_spec(t, nm, fs, kws) == Err::<(Episode, Seq<Seq<char>>), AppError>(
            AppError::FansubNotMatching,
        ),
{
}

/// Past the group and show-name gates, a segment whose episode token does
/// not parse is rejected as `ParseTorrentTitleError`, whatever tags the
/// title carries and whatever tags the rule requires.
pub proof fn law_malformed_episode(t: Seq<char>, nm: Seq<char>, fs: Seq<char>, kws: Seq<Seq<char>>)
    requires
        starts_with_seq(t, bracketed(fs)),
        starts_with_seq(rest_after_fansub(t, fs), nm),
        !episode_parses(segment_of(rest_after_fansub(t, fs), nm)),
    ensures
        pipeline_spec(t, nm, fs, kws) == Err::<(Episode, Seq<Seq<char>>), AppError>(
            AppError::ParseTorrentTitleError,
        ),
{
}

} // verus!
