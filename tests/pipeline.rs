use std::collections::hash_map::DefaultHasher;
use std::hash::{Hash, Hasher};

use hookbuffer::debounce::{DebounceDecision, DebounceTable, DEBOUNCE_WINDOW_MS};
use hookbuffer::grouping::{group_sonarr_requests, render_batch};
use hookbuffer::ingress::{accept_event, IngressError};
use hookbuffer::sonarr::{
    normalise, SonarrEpisode, SonarrEpisodeFile, SonarrEventType, SonarrGroupKey,
    SonarrRequestBody, SonarrSeries,
};

fn hash_str(s: &str) -> u64 {
    let mut hasher = DefaultHasher::new();
    s.hash(&mut hasher);
    hasher.finish()
}

fn episode(series_id: u64, season_number: u64, episode_number: u64, title: &str) -> SonarrEpisode {
    SonarrEpisode {
        episode_number,
        season_number,
        title: title.to_string(),
        series_id,
        air_date: None,
        air_date_utc: None,
        id: None,
        overview: None,
    }
}

fn create_episode_request(
    series_title: &str,
    episode_title: &str,
    season_number: u64,
    episode_number: u64,
    event_type: SonarrEventType,
) -> SonarrRequestBody {
    let series_id = hash_str(series_title);
    SonarrRequestBody {
        series: SonarrSeries {
            title: series_title.to_string(),
            id: Some(series_id),
            imdb_id: None,
            path: None,
            title_slug: None,
            tvdb_id: None,
            tv_maze_id: None,
            year: None,
            type_: None,
        },
        event_type: Some(event_type),
        episodes: vec![episode(series_id, season_number, episode_number, episode_title)],
        episode_file: Some(SonarrEpisodeFile {
            id: None,
            relative_path: None,
            path: None,
            quality: "Fake Quality".to_string(),
            quality_version: None,
            release_group: None,
            scene_name: None,
            size: None,
            date_added: None,
            media_info: None,
        }),
        release: None,
        is_upgrade: Some(event_type == SonarrEventType::Upgrade),
        application_url: None,
        download_client: None,
        download_id: None,
        custom_format_info: None,
        instance_name: None,
    }
}

#[test]
fn test_group_sonarr_requests() {
    let mut queue = vec![
        // group 1
        create_episode_request("Fake Series 1", "Fake Episode 1", 1, 1, SonarrEventType::Grab),
        create_episode_request("Fake Series 1", "Fake Episode 2", 1, 2, SonarrEventType::Grab),
        // group 2
        create_episode_request("Fake Series 1", "Fake Episode 1", 1, 1, SonarrEventType::Download),
        create_episode_request("Fake Series 1", "Fake Episode 2", 1, 2, SonarrEventType::Download),
        // group 3
        create_episode_request("Fake Series 1", "Fake Episode 1", 1, 1, SonarrEventType::Upgrade),
        create_episode_request("Fake Series 1", "Fake Episode 2", 1, 2, SonarrEventType::Upgrade),
        // group 4
        create_episode_request("The Fakest Show", "Fake Episode 1", 1, 1, SonarrEventType::Grab),
        create_episode_request("The Fakest Show", "Fake Episode 2", 1, 2, SonarrEventType::Grab),
        // group 5
        create_episode_request("The Fakest Show", "Fake Episode 1", 1, 1, SonarrEventType::Download),
        create_episode_request("The Fakest Show", "Fake Episode 2", 1, 2, SonarrEventType::Download),
        // group 6
        create_episode_request("The Fakest Show", "Fake Episode 1", 1, 1, SonarrEventType::Upgrade),
        create_episode_request("The Fakest Show", "Fake Episode 2", 1, 2, SonarrEventType::Upgrade),
    ];

    let result = group_sonarr_requests(&mut queue);

    assert_eq!(result.len(), 6);
    assert_eq!(queue.len(), 0);
}

#[test]
fn groups_come_in_key_order_with_arrival_order_inside() {
    let mut queue = vec![
        create_episode_request("Show", "E2", 2, 2, SonarrEventType::Grab),
        create_episode_request("Show", "E1", 1, 1, SonarrEventType::Grab),
        create_episode_request("Show", "E3", 2, 3, SonarrEventType::Grab),
    ];
    let id = hash_str("Show");
    let groups = group_sonarr_requests(&mut queue);
    assert_eq!(groups.len(), 2);
    assert!(groups[0].0 == SonarrGroupKey(id, SonarrEventType::Grab, 1));
    assert!(groups[1].0 == SonarrGroupKey(id, SonarrEventType::Grab, 2));
    assert_eq!(groups[0].1.len(), 1);
    assert_eq!(groups[1].1.len(), 2);
    assert_eq!(groups[1].1[0].episodes[0].title, "E2");
    assert_eq!(groups[1].1[1].episodes[0].title, "E3");
}

#[test]
fn event_spanning_two_seasons_is_copied_per_episode() {
    let mut request = create_episode_request("Show", "S1E1", 1, 1, SonarrEventType::Grab);
    let id = request.series.id.unwrap();
    request.episodes.push(episode(id, 1, 2, "S1E2"));
    request.episodes.push(episode(id, 2, 1, "S2E1"));
    let mut queue = vec![request];
    let groups = group_sonarr_requests(&mut queue);
    assert_eq!(groups.len(), 2);
    assert_eq!(groups[0].0.2, 1);
    assert_eq!(groups[1].0.2, 2);
    // one copy per episode: two in season 1, one in season 2
    assert_eq!(groups[0].1.len(), 2);
    assert_eq!(groups[1].1.len(), 1);
}

#[test]
fn two_episodes_of_one_event_count_twice() {
    let mut request = create_episode_request("Show", "E1", 1, 1, SonarrEventType::Grab);
    let id = request.series.id.unwrap();
    request.episodes.push(episode(id, 1, 2, "E2"));
    let messages = render_batch(vec![request]);
    assert_eq!(messages.len(), 1);
    assert_eq!(messages[0].1.content, "Grabbed: Show Season 01");
    assert_eq!(
        messages[0].1.embeds[0].description,
        Some("01x01 - E1 [Fake Quality] (2x)\n01x02 - E2 [Fake Quality] (2x)".to_string())
    );
}

#[test]
fn event_without_kind_is_malformed() {
    let mut table = DebounceTable::new();
    let mut request = create_episode_request("Show", "A", 1, 1, SonarrEventType::Grab);
    request.event_type = None;
    assert!(accept_event(&mut table, "/path", request, 0) == Err(IngressError::MalformedEvent));
    assert_eq!(table.arm("/path"), None);
}

#[test]
fn download_upgrade_is_grouped_as_upgrade() {
    let mut request = create_episode_request("Show", "E1", 1, 1, SonarrEventType::Download);
    request.is_upgrade = Some(true);
    let plain = create_episode_request("Show", "E2", 1, 2, SonarrEventType::Download);
    let mut queue = vec![request, plain];
    let groups = group_sonarr_requests(&mut queue);
    assert_eq!(groups.len(), 2);
    assert!(groups[0].0.1 == SonarrEventType::Download);
    assert!(groups[1].0.1 == SonarrEventType::Upgrade);
    assert!(groups[1].1[0].event_type == Some(SonarrEventType::Upgrade));
}

#[test]
fn missing_series_id_and_kind_default() {
    let mut request = create_episode_request("Show", "E1", 4, 1, SonarrEventType::Grab);
    request.series.id = None;
    request.event_type = None;
    let key = SonarrGroupKey::from(&request);
    assert!(key == SonarrGroupKey(0, SonarrEventType::Test, 4));
    request.episodes.clear();
    let key = SonarrGroupKey::from(&request);
    assert!(key == SonarrGroupKey(0, SonarrEventType::Test, 0));
}

#[test]
fn normalise_only_touches_upgrading_downloads() {
    let mut request = create_episode_request("Show", "E1", 1, 1, SonarrEventType::Download);
    request.is_upgrade = Some(true);
    assert!(normalise(request).event_type == Some(SonarrEventType::Upgrade));
    let grab = create_episode_request("Show", "E1", 1, 1, SonarrEventType::Grab);
    assert!(normalise(grab).event_type == Some(SonarrEventType::Grab));
    let mut none = create_episode_request("Show", "E1", 1, 1, SonarrEventType::Grab);
    none.event_type = None;
    assert!(normalise(none).event_type.is_none());
}

#[test]
fn render_batch_builds_one_message_per_group() {
    let queue = vec![
        create_episode_request("Fake Series 1", "Fake Episode 1", 1, 1, SonarrEventType::Grab),
        create_episode_request("Fake Series 1", "Fake Episode 2", 1, 2, SonarrEventType::Grab),
        create_episode_request("Fake Series 1", "Fake Episode 1", 1, 1, SonarrEventType::Download),
    ];
    let messages = render_batch(queue);
    assert_eq!(messages.len(), 2);
    assert_eq!(messages[0].1.content, "Grabbed: Fake Series 1 Season 01");
    assert_eq!(messages[1].1.content, "Imported: Fake Series 1 - 01x01 - Fake Episode 1");
}

#[test]
fn enqueue_arm_and_drain() {
    let mut table = DebounceTable::new();
    let a = create_episode_request("Show", "A", 1, 1, SonarrEventType::Grab);
    let b = create_episode_request("Show", "B", 1, 2, SonarrEventType::Grab);

    let first = table.enqueue("/api/webhooks/1/x", a, 0);
    assert!(first.decision == DebounceDecision::Created);
    assert_eq!(first.deadline, DEBOUNCE_WINDOW_MS);
    assert_eq!(first.generation, 0);
    assert_eq!(table.arm("/api/webhooks/1/x"), Some((1, 15000)));

    let second = table.enqueue("/api/webhooks/1/x", b, 10_000);
    assert!(second.decision == DebounceDecision::Refreshed);
    assert_eq!(second.deadline, 25_000);
    assert_eq!(table.arm("/api/webhooks/1/x"), Some((2, 25_000)));

    // the first task wakes at its deadline and finds itself superseded
    assert!(table.try_drain("/api/webhooks/1/x", 1).is_none());
    // the second task drains both events, once
    let drained = table.try_drain("/api/webhooks/1/x", 2).unwrap();
    assert_eq!(drained.len(), 2);
    assert_eq!(drained[0].episodes[0].title, "A");
    assert_eq!(drained[1].episodes[0].title, "B");
    let again = table.try_drain("/api/webhooks/1/x", 2).unwrap();
    assert_eq!(again.len(), 0);

    assert!(table.try_drain("/other", 0).is_none());
    assert_eq!(table.arm("/other"), None);
}

#[test]
fn debounce_coalesces_a_burst_into_one_message() {
    // A at t=0, B at t=10s on the same path; tasks wake at their deadlines.
    let mut table = DebounceTable::new();
    let path = "/api/webhooks/9/token";
    let a = create_episode_request("Show", "A", 1, 1, SonarrEventType::Grab);
    let b = create_episode_request("Show", "B", 1, 2, SonarrEventType::Grab);

    let task_a = accept_event(&mut table, path, a, 0).unwrap();
    let task_b = accept_event(&mut table, path, b, 10_000).unwrap();
    assert_eq!(task_a.deadline, 15_000);
    assert_eq!(task_b.deadline, 25_000);

    // t = 15 s: nothing is posted
    assert!(table.try_drain(path, task_a.generation).is_none());
    // t = 25 s: one batch holding both events
    let batch = table.try_drain(path, task_b.generation).unwrap();
    assert_eq!(batch.len(), 2);
    let messages = render_batch(batch);
    assert_eq!(messages.len(), 1);
    assert_eq!(messages[0].1.content, "Grabbed: Show Season 01");
}

#[test]
fn rejected_kind_creates_no_entry() {
    let mut table = DebounceTable::new();
    let rename = create_episode_request("Show", "A", 1, 1, SonarrEventType::Rename);
    let r = accept_event(&mut table, "/path", rename, 0);
    assert!(r == Err(IngressError::UnsupportedEvent));
    assert_eq!(IngressError::UnsupportedEvent.status(), 400);
    assert_eq!(table.arm("/path"), None);
}

#[test]
fn accepted_download_upgrade_is_buffered_normalised() {
    let mut table = DebounceTable::new();
    let mut request = create_episode_request("Show", "A", 1, 1, SonarrEventType::Download);
    request.is_upgrade = Some(true);
    let armed = accept_event(&mut table, "/p", request, 5).unwrap();
    assert_eq!(armed.generation, 1);
    assert_eq!(armed.deadline, 15_005);
    let batch = table.try_drain("/p", 1).unwrap();
    assert!(batch[0].event_type == Some(SonarrEventType::Upgrade));
}
