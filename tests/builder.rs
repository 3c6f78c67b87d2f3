use std::collections::hash_map::DefaultHasher;
use std::hash::{Hash, Hasher};

use hookbuffer::discord::{color_of, convert_group_to_webhook, resolve_quality, verb_of};
use hookbuffer::sonarr::{
    SonarrEpisode, SonarrEpisodeFile, SonarrEventType, SonarrRelease, SonarrRequestBody,
    SonarrSeries,
};

fn hash_str(s: &str) -> u64 {
    let mut hasher = DefaultHasher::new();
    s.hash(&mut hasher);
    hasher.finish()
}

fn create_episode_request(
    series_title: &str,
    episode_title: &str,
    season_number: u64,
    episode_number: u64,
    event_type: SonarrEventType,
) -> SonarrRequestBody {
    let series_id = hash_str(series_title);
    SonarrRequestBody {
        series: SonarrSeries {
            title: series_title.to_string(),
            id: Some(series_id),
            imdb_id: None,
            path: None,
            title_slug: None,
            tvdb_id: None,
            tv_maze_id: None,
            year: None,
            type_: None,
        },
        event_type: Some(event_type),
        episodes: vec![SonarrEpisode {
            episode_number,
            season_number,
            title: episode_title.to_string(),
            series_id,
            air_date: None,
            air_date_utc: None,
            id: None,
            overview: None,
        }],
        episode_file: Some(SonarrEpisodeFile {
            id: None,
            relative_path: None,
            path: None,
            quality: "Fake Quality".to_string(),
            quality_version: None,
            release_group: None,
            scene_name: None,
            size: None,
            date_added: None,
            media_info: None,
        }),
        release: None,
        is_upgrade: Some(event_type == SonarrEventType::Upgrade),
        application_url: None,
        download_client: None,
        download_id: None,
        custom_format_info: None,
        instance_name: None,
    }
}

fn release_with_quality(quality: Option<&str>) -> SonarrRelease {
    SonarrRelease {
        custom_format_score: None,
        custom_formats: None,
        indexer: None,
        quality: quality.map(|q| q.to_string()),
        quality_version: None,
        release_group: None,
        release_title: None,
        size: None,
    }
}

#[test]
fn multiple_episodes() {
    let requests = vec![
        create_episode_request("Fake Series 1", "Fake Episode 4", 1, 4, SonarrEventType::Grab),
        create_episode_request("Fake Series 1", "Fake Episode 3", 1, 3, SonarrEventType::Grab),
        create_episode_request("Fake Series 1", "Fake Episode 6", 1, 6, SonarrEventType::Grab),
        create_episode_request("Fake Series 1", "Fake Episode 1", 1, 1, SonarrEventType::Grab),
        create_episode_request("Fake Series 1", "Fake Episode 2", 1, 2, SonarrEventType::Grab),
        create_episode_request("Fake Series 1", "Fake Episode 5", 1, 5, SonarrEventType::Grab),
    ];

    let webhook = convert_group_to_webhook(&requests);

    assert_eq!(webhook.embeds.len(), 1);
    assert_eq!(webhook.content, "Grabbed: Fake Series 1 Season 01");
    assert_eq!(webhook.embeds[0].title, Some("Fake Series 1".to_string()));
    assert_eq!(
        webhook.embeds[0].description,
        Some("01x01 - Fake Episode 1 [Fake Quality]\n01x02 - Fake Episode 2 [Fake Quality]\n01x03 - Fake Episode 3 [Fake Quality]\n01x04 - Fake Episode 4 [Fake Quality]\n01x05 - Fake Episode 5 [Fake Quality]\n01x06 - Fake Episode 6 [Fake Quality]".to_string())
    );
    assert_eq!(webhook.embeds[0].color, Some(0xFFC130));
}

#[test]
fn single_episode() {
    let requests = vec![create_episode_request("Fake Series", "Fake Episode 1", 1, 1, SonarrEventType::Grab)];

    let webhook = convert_group_to_webhook(&requests);

    assert_eq!(webhook.embeds.len(), 1);
    assert_eq!(webhook.content, "Grabbed: Fake Series - 01x01 - Fake Episode 1");
    assert_eq!(webhook.embeds[0].title, Some("Fake Series".to_string()));
    assert_eq!(webhook.embeds[0].description, Some("01x01 - Fake Episode 1 [Fake Quality]".to_string()));
    assert_eq!(webhook.embeds[0].kind, "rich");
}

#[test]
fn colors() {
    let grab_webhook = convert_group_to_webhook(&vec![create_episode_request(
        "Fake Series",
        "Fake Episode 1",
        1,
        1,
        SonarrEventType::Grab,
    )]);
    let download_webhook = convert_group_to_webhook(&vec![create_episode_request(
        "Fake Series",
        "Fake Episode 1",
        1,
        1,
        SonarrEventType::Download,
    )]);
    let upgrade_webhook = convert_group_to_webhook(&vec![create_episode_request(
        "Fake Series",
        "Fake Episode 1",
        1,
        1,
        SonarrEventType::Upgrade,
    )]);

    assert_eq!(grab_webhook.embeds[0].color, Some(0xFFC130));
    assert_eq!(download_webhook.embeds[0].color, Some(0x29A44C));
    assert_eq!(upgrade_webhook.embeds[0].color, Some(0x3E6800));
}

#[test]
fn repeated_episodes() {
    let mut requests = Vec::new();
    for _ in 0..3 {
        requests.push(create_episode_request("Fake Series 1", "Fake Episode 4", 1, 4, SonarrEventType::Grab));
    }
    for _ in 0..3 {
        requests.push(create_episode_request("Fake Series 1", "Fake Episode 1", 1, 1, SonarrEventType::Grab));
    }
    for _ in 0..4 {
        requests.push(create_episode_request("Fake Series 1", "Fake Episode 6", 1, 6, SonarrEventType::Grab));
    }

    let webhook = convert_group_to_webhook(&requests);

    assert_eq!(webhook.content, "Grabbed: Fake Series 1 Season 01");
    assert_eq!(
        webhook.embeds[0].description,
        Some("01x01 - Fake Episode 1 [Fake Quality] (3x)\n01x04 - Fake Episode 4 [Fake Quality] (3x)\n01x06 - Fake Episode 6 [Fake Quality] (4x)".to_string())
    );
}

#[test]
fn download_flagged_as_upgrade_renders_as_upgrade() {
    let mut request = create_episode_request("Fake Series", "Fake Episode 1", 1, 1, SonarrEventType::Download);
    request.is_upgrade = Some(true);

    let webhook = convert_group_to_webhook(&vec![request]);

    assert_eq!(webhook.embeds[0].color, Some(0x3E6800));
    assert_eq!(webhook.content, "Upgraded: Fake Series - 01x01 - Fake Episode 1");
}

#[test]
fn plain_download_reads_imported() {
    let webhook = convert_group_to_webhook(&vec![create_episode_request(
        "Fake Series",
        "Fake Episode 2",
        3,
        12,
        SonarrEventType::Download,
    )]);
    assert_eq!(webhook.content, "Imported: Fake Series - 03x12 - Fake Episode 2");
    assert_eq!(webhook.embeds[0].description, Some("03x12 - Fake Episode 2 [Fake Quality]".to_string()));
}

#[test]
fn one_event_with_two_episodes_uses_season_line() {
    let mut request = create_episode_request("Fake Series", "Fake Episode 1", 2, 1, SonarrEventType::Grab);
    let mut second = request.episodes[0].clone();
    second.episode_number = 2;
    second.title = "Fake Episode 2".to_string();
    request.episodes.push(second);

    let webhook = convert_group_to_webhook(&vec![request]);

    assert_eq!(webhook.content, "Grabbed: Fake Series Season 02");
    assert_eq!(
        webhook.embeds[0].description,
        Some("02x01 - Fake Episode 1 [Fake Quality]\n02x02 - Fake Episode 2 [Fake Quality]".to_string())
    );
}

#[test]
fn large_numbers_are_not_truncated() {
    let webhook = convert_group_to_webhook(&vec![create_episode_request(
        "Long Show",
        "Finale",
        2024,
        105,
        SonarrEventType::Grab,
    )]);
    assert_eq!(webhook.content, "Grabbed: Long Show - 2024x105 - Finale");
}

#[test]
fn quality_falls_back_to_release_then_none() {
    let mut request = create_episode_request("Fake Series", "Fake Episode 1", 1, 1, SonarrEventType::Grab);
    assert_eq!(resolve_quality(&request), "Fake Quality");

    request.episode_file = None;
    request.release = Some(release_with_quality(Some("WEBDL-1080p")));
    assert_eq!(resolve_quality(&request), "WEBDL-1080p");
    let webhook = convert_group_to_webhook(&vec![request.clone()]);
    assert_eq!(webhook.embeds[0].description, Some("01x01 - Fake Episode 1 [WEBDL-1080p]".to_string()));

    request.release = Some(release_with_quality(None));
    assert_eq!(resolve_quality(&request), "None");

    request.release = None;
    assert_eq!(resolve_quality(&request), "None");
    let webhook = convert_group_to_webhook(&vec![request]);
    assert_eq!(webhook.embeds[0].description, Some("01x01 - Fake Episode 1 [None]".to_string()));
}

#[test]
fn verbs_and_colors_per_kind() {
    assert_eq!(verb_of(SonarrEventType::Grab, false), "Grabbed");
    assert_eq!(verb_of(SonarrEventType::Download, false), "Imported");
    assert_eq!(verb_of(SonarrEventType::Download, true), "Upgraded");
    assert_eq!(verb_of(SonarrEventType::Upgrade, false), "Upgraded");
    assert_eq!(verb_of(SonarrEventType::Rename, false), "Renamed");
    assert_eq!(verb_of(SonarrEventType::Health, false), "Unknown");
    assert_eq!(verb_of(SonarrEventType::Grab, true), verb_of(SonarrEventType::Grab, true));

    assert_eq!(color_of(SonarrEventType::Test), 0x0800FF);
    assert_eq!(color_of(SonarrEventType::Grab), 0xFFC130);
    assert_eq!(color_of(SonarrEventType::Download), 0x29A44C);
    assert_eq!(color_of(SonarrEventType::Upgrade), 0x3E6800);
    assert_eq!(color_of(SonarrEventType::Rename), 0xFF00FF);
    assert_eq!(color_of(SonarrEventType::SeriesAdd), 0xFFFFFF);
    assert_eq!(color_of(SonarrEventType::Rename), color_of(SonarrEventType::Rename));
}

#[test]
fn rows_are_sorted_by_season_then_episode() {
    let requests = vec![
        create_episode_request("Fake Series", "B", 2, 1, SonarrEventType::Grab),
        create_episode_request("Fake Series", "A", 1, 10, SonarrEventType::Grab),
        create_episode_request("Fake Series", "C", 1, 2, SonarrEventType::Grab),
        create_episode_request("Fake Series", "Other title", 1, 2, SonarrEventType::Grab),
    ];
    let webhook = convert_group_to_webhook(&requests);
    assert_eq!(
        webhook.embeds[0].description,
        Some("01x02 - C [Fake Quality] (2x)\n01x10 - A [Fake Quality]\n02x01 - B [Fake Quality]".to_string())
    );
}
