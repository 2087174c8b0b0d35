//! The record of episodes already fetched, as the pipeline's callers keep it.
//!
//! The driver persists and reloads this between runs; the library only
//! defines its shape.

use vstd::prelude::*;

verus! {

/// What was already fetched for one show.
pub struct DownloadedAnime {
    pub name: String,
    pub episodes_downloaded: Vec<String>,
}

} // verus!
