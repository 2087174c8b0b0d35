//! Watches a torrent feed for new anime episode releases.
//!
//! The heart of the crate is the title-matching pipeline in
//! [`torrent_parser`]: a pure, deterministic parser that takes a raw torrent
//! title and a match rule (show name, release-group name, required tags) and
//! either extracts a normalized episode identifier or rejects the title with
//! a specific reason. Every stage of that pipeline is verified against an
//! exact functional specification over sequences of characters.
//!
//! The surrounding driver (feed fetching, configuration files, persistence,
//! the download client) performs I/O and lives outside this library; it hands
//! the pipeline plain strings and rules and receives plain values back.

pub mod config;
pub mod downloaded;
pub mod episode;
pub mod errors;
pub mod feed;
pub mod tags;
pub mod text;
pub mod torrent_parser;
