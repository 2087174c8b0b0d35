//! The configured shows to watch, as the pipeline sees them.
//!
//! The driver loads these from a user-maintained configuration file; the
//! library only reads their fields, so they are plain data here.

use vstd::prelude::*;

verus! {

/// One show to watch: where to store it and which fansub rules to try.
pub struct AnimeConfig {
    /// The fansub rules tried in turn against each feed title.
    pub fansubs: Vec<AnimeByFansub>,
    /// The key under which downloaded episodes of this show are recorded.
    pub storage_name: String,
    /// Where the download client should place the files.
    pub download_path: String,
}

/// A match rule: a show released by one fansub group, with required tags.
pub struct AnimeByFansub {
    /// The show name, matched exactly and case-sensitively as a title prefix.
    pub name: String,
    /// The release group, matched as the leading `[<fansub>]` token.
    pub fansub: String,
    /// Tags that must all appear among the title's extracted tags.
    ///
    /// Order is irrelevant for matching but preserved for deterministic
    /// reporting.
    pub keywords: Vec<String>,
}

} // verus!
