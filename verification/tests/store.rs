use oshi_api::api::{DbChannel, DbVideo, Lifecycle};
use oshi_api::sqlite::{
    delete_db_videos, get_db_channels, get_db_upcoming_videos, has_db_channel, init_db,
    upsert_db_channel, upsert_db_videos, Store, LISTING_CAP,
};

fn channel(id: &str, name: &str, disabled: i32) -> DbChannel {
    DbChannel { id: id.to_string(), name: name.to_string(), disabled }
}

fn video(id: &str, channel_id: &str, scheduled: &str, start: Option<&str>, end: Option<&str>) -> DbVideo {
    DbVideo {
        id: id.to_string(),
        channel_id: channel_id.to_string(),
        channel_name: None,
        title: format!("title of {}", id),
        scheduled_time: scheduled.to_string(),
        start_time: start.map(|s| s.to_string()),
        end_time: end.map(|s| s.to_string()),
    }
}

fn ids(videos: &Vec<DbVideo>) -> Vec<String> {
    videos.iter().map(|v| v.id.clone()).collect()
}

fn store_with_channel_x() -> Store {
    let mut store = init_db();
    upsert_db_channel(&mut store, channel("X", "Channel X", 0));
    store
}

#[test]
fn new_store_is_empty() {
    let store = init_db();
    assert!(get_db_channels(&store).is_empty());
    assert!(get_db_upcoming_videos(&store, &None).is_empty());
    assert!(!has_db_channel(&store, &"X".to_string()));
}

#[test]
fn listing_excludes_ended_and_orders_by_scheduled_time() {
    let mut store = store_with_channel_x();
    upsert_db_videos(
        &mut store,
        vec![
            video("C", "X", "2024-01-01T00:00:00Z", Some("2024-01-01T00:01:00Z"), Some("2024-01-01T02:00:00Z")),
            video("B", "X", "2024-01-03T00:00:00Z", Some("2024-01-03T00:00:30Z"), None),
            video("A", "X", "2024-01-02T00:00:00Z", None, None),
        ],
    );
    let listed = get_db_upcoming_videos(&store, &Some("X".to_string()));
    assert_eq!(ids(&listed), vec!["A".to_string(), "B".to_string()]);
    assert_eq!(listed[0].lifecycle(), Lifecycle::Upcoming);
    assert_eq!(listed[1].lifecycle(), Lifecycle::Live);
    assert_eq!(listed[0].channel_name, Some("Channel X".to_string()));
    assert_eq!(listed[1].channel_name, Some("Channel X".to_string()));
    assert_eq!(listed[0].title, "title of A");
    assert_eq!(listed[1].start_time, Some("2024-01-03T00:00:30Z".to_string()));
}

#[test]
fn listing_filters_by_channel() {
    let mut store = store_with_channel_x();
    upsert_db_channel(&mut store, channel("Y", "Channel Y", 0));
    upsert_db_videos(
        &mut store,
        vec![
            video("A", "X", "2024-01-02T00:00:00Z", None, None),
            video("B", "Y", "2024-01-01T00:00:00Z", None, None),
        ],
    );
    assert_eq!(ids(&get_db_upcoming_videos(&store, &Some("X".to_string()))), vec!["A".to_string()]);
    assert_eq!(ids(&get_db_upcoming_videos(&store, &Some("Y".to_string()))), vec!["B".to_string()]);
    assert_eq!(
        ids(&get_db_upcoming_videos(&store, &None)),
        vec!["B".to_string(), "A".to_string()]
    );
    assert!(get_db_upcoming_videos(&store, &Some("Z".to_string())).is_empty());
}

#[test]
fn listing_is_capped_at_the_soonest_ten() {
    let mut store = store_with_channel_x();
    let mut batch = Vec::new();
    for n in (0..15).rev() {
        batch.push(video(&format!("v{:02}", n), "X", &format!("2024-01-{:02}T00:00:00Z", n + 1), None, None));
    }
    upsert_db_videos(&mut store, batch);
    let listed = get_db_upcoming_videos(&store, &None);
    assert_eq!(LISTING_CAP, 10);
    assert_eq!(listed.len(), 10);
    let expected: Vec<String> = (0..10).map(|n| format!("v{:02}", n)).collect();
    assert_eq!(ids(&listed), expected);
    for pair in listed.windows(2) {
        assert!(pair[0].scheduled_time <= pair[1].scheduled_time);
    }
}

#[test]
fn listing_hides_videos_of_unknown_channels() {
    let mut store = store_with_channel_x();
    upsert_db_videos(
        &mut store,
        vec![
            video("A", "X", "2024-01-02T00:00:00Z", None, None),
            video("Q", "nowhere", "2024-01-01T00:00:00Z", None, None),
        ],
    );
    assert_eq!(ids(&get_db_upcoming_videos(&store, &None)), vec!["A".to_string()]);
    upsert_db_channel(&mut store, channel("nowhere", "Found", 0));
    assert_eq!(
        ids(&get_db_upcoming_videos(&store, &None)),
        vec!["Q".to_string(), "A".to_string()]
    );
}

#[test]
fn listing_shows_videos_of_disabled_channels() {
    let mut store = init_db();
    upsert_db_channel(&mut store, channel("X", "Channel X", 1));
    upsert_db_videos(&mut store, vec![video("A", "X", "2024-01-02T00:00:00Z", None, None)]);
    assert_eq!(ids(&get_db_upcoming_videos(&store, &None)), vec!["A".to_string()]);
    assert!(get_db_channels(&store).is_empty());
}

#[test]
fn prefix_sorts_before_longer_time() {
    let mut store = store_with_channel_x();
    upsert_db_videos(
        &mut store,
        vec![
            video("long", "X", "2024-01-02T00:00:00Z", None, None),
            video("short", "X", "2024-01-02", None, None),
            video("empty", "X", "", None, None),
        ],
    );
    assert_eq!(
        ids(&get_db_upcoming_videos(&store, &None)),
        vec!["empty".to_string(), "short".to_string(), "long".to_string()]
    );
}

#[test]
fn upsert_replaces_by_id_and_last_write_wins() {
    let mut store = store_with_channel_x();
    upsert_db_videos(
        &mut store,
        vec![
            video("A", "X", "2024-01-02T00:00:00Z", None, None),
            video("A", "X", "2024-01-05T00:00:00Z", None, None),
        ],
    );
    let listed = get_db_upcoming_videos(&store, &None);
    assert_eq!(listed.len(), 1);
    assert_eq!(listed[0].scheduled_time, "2024-01-05T00:00:00Z");
    upsert_db_videos(&mut store, vec![video("A", "X", "2024-01-05T00:00:00Z", None, Some("2024-01-05T01:00:00Z"))]);
    assert!(get_db_upcoming_videos(&store, &None).is_empty());
}

#[test]
fn upsert_does_not_store_the_channel_name() {
    let mut store = store_with_channel_x();
    let mut v = video("A", "X", "2024-01-02T00:00:00Z", None, None);
    v.channel_name = Some("made up".to_string());
    upsert_db_videos(&mut store, vec![v]);
    let listed = get_db_upcoming_videos(&store, &None);
    assert_eq!(listed[0].channel_name, Some("Channel X".to_string()));
}

#[test]
fn delete_removes_only_the_named_videos() {
    let mut store = store_with_channel_x();
    upsert_db_videos(
        &mut store,
        vec![
            video("A", "X", "2024-01-01T00:00:00Z", None, None),
            video("B", "X", "2024-01-02T00:00:00Z", None, None),
            video("C", "X", "2024-01-03T00:00:00Z", None, None),
        ],
    );
    delete_db_videos(&mut store, &vec!["B".to_string(), "missing".to_string(), "B".to_string()]);
    assert_eq!(
        ids(&get_db_upcoming_videos(&store, &None)),
        vec!["A".to_string(), "C".to_string()]
    );
    delete_db_videos(&mut store, &vec![]);
    assert_eq!(get_db_upcoming_videos(&store, &None).len(), 2);
}

#[test]
fn channels_are_replaced_by_id_and_disabled_ones_are_not_listed() {
    let mut store = init_db();
    upsert_db_channel(&mut store, channel("X", "Old name", 0));
    upsert_db_channel(&mut store, channel("Y", "Channel Y", 1));
    upsert_db_channel(&mut store, channel("X", "New name", 0));
    let active = get_db_channels(&store);
    assert_eq!(active, vec![channel("X", "New name", 0)]);
    assert!(has_db_channel(&store, &"Y".to_string()));
    assert!(has_db_channel(&store, &"X".to_string()));
    assert!(!has_db_channel(&store, &"Z".to_string()));
}

#[test]
fn lifecycle_is_derived_from_the_two_times() {
    assert_eq!(video("A", "X", "t", None, None).lifecycle(), Lifecycle::Upcoming);
    assert_eq!(video("A", "X", "t", Some("s"), None).lifecycle(), Lifecycle::Live);
    assert_eq!(video("A", "X", "t", Some("s"), Some("e")).lifecycle(), Lifecycle::Ended);
    assert_eq!(video("A", "X", "t", None, Some("e")).lifecycle(), Lifecycle::Ended);
}
