//! The rejection reasons of the title-matching pipeline.

use vstd::prelude::*;

verus! {

/// Why a torrent title was rejected for a given match rule.
///
/// Every rejection is an expected, per-title outcome ("this rule does not
/// apply to this title"), never a crash: the pipeline returns exactly one of
/// these as a typed value and the caller goes on with other rules and titles.
#[derive(Debug, Clone, Copy, PartialEq, Eq, Structural)]
pub enum AppError {
    /// The title's leading group tag differs from the rule's fansub.
    FansubNotMatching,
    /// The show name does not appear as the expected prefix after the group tag.
    AnimeTitleNotMatching,
    /// One or more required tags are absent from the extracted tag sequence.
    MissingTag,
    /// The episode token could not be parsed as a number.
    ParseTorrentTitleError,
}

} // verus!
