use anime_torrent_watcher::config::AnimeByFansub;
use anime_torrent_watcher::episode::get_episode;
use anime_torrent_watcher::episode::Episode;
use anime_torrent_watcher::errors::AppError;
use anime_torrent_watcher::tags::get_metadata_tags;
use anime_torrent_watcher::torrent_parser::torrent_episode_if_matches_anime_entry;

fn episode_value(e: &Episode) -> f64 {
    e.num as f64 / 10f64.powi(e.scale as i32)
}

#[test]
fn test_get_episode_with_season() {
    let episode = get_episode("S01E04 [TAG][TAG2]").unwrap();

    assert_eq!(episode_value(&episode), 4.0);
}

#[test]
fn test_get_metadata_tags() {
    let metadata = get_metadata_tags("S01E04 [TAG][TAG2]");

    assert_eq!(metadata.len(), 2);
    assert_eq!(metadata[0], "[TAG]");
    assert_eq!(metadata[1], "[TAG2]");
}

#[test]
fn test_torrent_episode_if_matches_anime_entry() {
    let anime_by_fansub = AnimeByFansub {
        name: "My title".to_string(),
        fansub: "FanSub".to_string(),
        keywords: vec!["[1080p]".to_string()],
    };

    let metadata = torrent_episode_if_matches_anime_entry(
        "[FanSub] My title S02E02 [1080p][HEVC 10bit x265][AAC]",
        &anime_by_fansub,
    )
    .unwrap();

    assert_eq!(episode_value(&metadata.episode), 2.0);
}

#[test]
fn test_torrent_episode_if_matches_anime_entry_with_separator() {
    let anime_by_fansub = AnimeByFansub {
        name: "My title - Part 2".to_string(),
        fansub: "FanSub".to_string(),
        keywords: vec!["[1080p]".to_string(), "[HEVC]".to_string()],
    };

    let metadata = torrent_episode_if_matches_anime_entry(
        "[FanSub] My title - Part 2 - 02 [1080p][HEVC]",
        &anime_by_fansub,
    )
    .unwrap();

    assert_eq!(episode_value(&metadata.episode), 2.0);
}

#[test]
fn test_torrent_episode_if_matches_anime_entry_with_no_matching_tag() {
    let anime_by_fansub = AnimeByFansub {
        name: "My title - Part 2".to_string(),
        fansub: "FanSub".to_string(),
        keywords: vec!["[1080p]".to_string(), "[HEVC]".to_string()],
    };

    let metadata = torrent_episode_if_matches_anime_entry(
        "[FanSub] My title - Part 2 - 02 [720p][HEVC]",
        &anime_by_fansub,
    );

    match metadata {
        Ok(_) => assert!(false, "Result is OK but should be Err"),
        Err(error) => {
            if !matches!(error, AppError::MissingTag) {
                assert!(false, "Different error than the expected MissingTag")
            }
        }
    }
}

#[test]
fn full_scenario_returns_all_tags_in_order() {
    let rule = AnimeByFansub {
        name: "My title".to_string(),
        fansub: "FanSub".to_string(),
        keywords: vec!["[1080p]".to_string()],
    };

    let metadata = torrent_episode_if_matches_anime_entry(
        "[FanSub] My title S02E02 [1080p][HEVC 10bit x265][AAC]",
        &rule,
    )
    .unwrap();

    assert_eq!(episode_value(&metadata.episode), 2.0);
    assert_eq!(
        metadata.tags,
        vec!["[1080p]", "[HEVC 10bit x265]", "[AAC]"]
    );
}

#[test]
fn missing_fansub_prefix_is_rejected_first() {
    let rule = AnimeByFansub {
        name: "My title".to_string(),
        fansub: "FanSub".to_string(),
        keywords: vec!["[1080p]".to_string()],
    };

    // No group token at all: rejected by the first gate, although the
    // episode token is malformed and the required tag is missing too.
    let r = torrent_episode_if_matches_anime_entry("My title nonsense", &rule);
    assert_eq!(r.unwrap_err(), AppError::FansubNotMatching);

    // A different group: rejected by the first gate as well.
    let r = torrent_episode_if_matches_anime_entry("[OtherSub] My title S02E02 [1080p]", &rule);
    assert_eq!(r.unwrap_err(), AppError::FansubNotMatching);
}

#[test]
fn wrong_show_name_is_rejected() {
    let rule = AnimeByFansub {
        name: "My title".to_string(),
        fansub: "FanSub".to_string(),
        keywords: vec![],
    };

    let r = torrent_episode_if_matches_anime_entry("[FanSub] Other title - 02 [1080p]", &rule);
    assert_eq!(r.unwrap_err(), AppError::AnimeTitleNotMatching);
}

#[test]
fn malformed_episode_tokens_are_rejected() {
    let rule = AnimeByFansub {
        name: "My title".to_string(),
        fansub: "FanSub".to_string(),
        keywords: vec![],
    };

    // Non-numeric episode token.
    let r = torrent_episode_if_matches_anime_entry("[FanSub] My title - abc [1080p]", &rule);
    assert_eq!(r.unwrap_err(), AppError::ParseTorrentTitleError);

    // Empty after the season designator is stripped.
    let r = torrent_episode_if_matches_anime_entry("[FanSub] My title S01E [1080p]", &rule);
    assert_eq!(r.unwrap_err(), AppError::ParseTorrentTitleError);

    // Empty episode token altogether.
    let r = torrent_episode_if_matches_anime_entry("[FanSub] My title", &rule);
    assert_eq!(r.unwrap_err(), AppError::ParseTorrentTitleError);

    // Two decimal points.
    let r = torrent_episode_if_matches_anime_entry("[FanSub] My title - 1.2.3 [1080p]", &rule);
    assert_eq!(r.unwrap_err(), AppError::ParseTorrentTitleError);

    // More digits than the episode number can hold.
    let r = torrent_episode_if_matches_anime_entry(
        "[FanSub] My title - 99999999999999999999999 [1080p]",
        &rule,
    );
    assert_eq!(r.unwrap_err(), AppError::ParseTorrentTitleError);
}

#[test]
fn season_stripping_matches_plain_episode_token() {
    let with_season = get_episode("S01E04 [TAG]").unwrap();
    let plain = get_episode("04 [TAG]").unwrap();

    assert_eq!(with_season, plain);
    assert_eq!(episode_value(&with_season), 4.0);
    assert_eq!(episode_value(&plain), 4.0);
}

#[test]
fn half_episodes_parse_as_decimals() {
    let episode = get_episode("12.5 [1080p]").unwrap();

    assert_eq!(episode.num, 125);
    assert_eq!(episode.scale, 1);
    assert_eq!(episode_value(&episode), 12.5);
}

#[test]
fn tag_match_is_an_existence_check() {
    let rule = AnimeByFansub {
        name: "My title".to_string(),
        fansub: "FanSub".to_string(),
        keywords: vec!["[1080p]".to_string()],
    };

    // The required tag sits between other tags and appears twice: still a
    // match, and duplicates are reported as they appear.
    let metadata = torrent_episode_if_matches_anime_entry(
        "[FanSub] My title - 02 [720p][1080p][AAC][1080p]",
        &rule,
    )
    .unwrap();

    assert_eq!(
        metadata.tags,
        vec!["[720p]", "[1080p]", "[AAC]", "[1080p]"]
    );
}

#[test]
fn unterminated_tag_is_kept_verbatim() {
    let tags = get_metadata_tags("04 [TAG][TRUNCATED");

    assert_eq!(tags, vec!["[TAG]", "[TRUNCATED"]);
}

#[test]
fn parenthesized_tags_are_extracted_too() {
    let tags = get_metadata_tags("04 (Batch)[1080p]");

    assert_eq!(tags, vec!["(Batch)", "[1080p]"]);
}

#[test]
fn missing_separator_space_still_matches() {
    let rule = AnimeByFansub {
        name: "My title".to_string(),
        fansub: "FanSub".to_string(),
        keywords: vec![],
    };

    let metadata =
        torrent_episode_if_matches_anime_entry("[FanSub]My title 02 [1080p]", &rule).unwrap();

    assert_eq!(episode_value(&metadata.episode), 2.0);
}

#[test]
fn no_required_tags_always_satisfied() {
    let rule = AnimeByFansub {
        name: "My title".to_string(),
        fansub: "FanSub".to_string(),
        keywords: vec![],
    };

    let metadata = torrent_episode_if_matches_anime_entry("[FanSub] My title - 7", &rule).unwrap();

    assert_eq!(episode_value(&metadata.episode), 7.0);
    assert!(metadata.tags.is_empty());
}
