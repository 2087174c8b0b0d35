//! The shape of a torrent feed, as the pipeline sees it.
//!
//! The driver fetches and decodes the feed; the library only reads titles and
//! links from it, so these are plain data here.

use vstd::prelude::*;

verus! {

/// A whole feed document: one channel of items.
pub struct NyaaRss {
    pub channel: Channel,
}

/// The feed channel: its display title and the listed torrents.
pub struct Channel {
    pub title: String,
    pub item: Vec<AnimeTorrent>,
}

/// One feed item: a torrent's raw title and its download link.
pub struct AnimeTorrent {
    pub title: String,
    pub link: String,
}

} // verus!
