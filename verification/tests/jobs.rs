use oshi_api::api::{DbChannel, DbVideo};
use oshi_api::config::Config;
use oshi_api::scheduler::{
    bootstrap_request, check_existing_videos, check_new_videos, classify_refresh, contains_id,
    discovery_request, init_scheduler, partition_ids, plan_refresh, refresh_request,
    update_channels, Job, RefreshOutcome,
};
use oshi_api::pages::Pages;
use oshi_api::sqlite::{
    get_db_channels, get_db_upcoming_videos, has_db_channel, init_db, upsert_db_channel,
    upsert_db_videos, Store,
};
use oshi_api::youtube::channels::{channel_from_response, channel_url};
use oshi_api::youtube::videos::{feed_url, videos_from_response, videos_url, VideoItem};
use oshi_api::youtube::xml::video_ids;
use oshi_api::youtube::{GatewayError, YoutubeChannel, YoutubeVideo};

fn s(text: &str) -> String {
    text.to_string()
}

fn strings(texts: &[&str]) -> Vec<String> {
    texts.iter().map(|t| t.to_string()).collect()
}

fn row(id: &str, scheduled: &str) -> DbVideo {
    DbVideo {
        id: s(id),
        channel_id: s("X"),
        channel_name: None,
        title: format!("old {}", id),
        scheduled_time: s(scheduled),
        start_time: None,
        end_time: None,
    }
}

fn reported(id: &str, scheduled: &str, start: Option<&str>, end: Option<&str>) -> YoutubeVideo {
    YoutubeVideo {
        id: s(id),
        channel_id: s("X"),
        title: format!("new {}", id),
        scheduled_time: s(scheduled),
        start_time: start.map(s),
        end_time: end.map(s),
    }
}

fn store_abd() -> Store {
    let mut store = init_db();
    upsert_db_channel(&mut store, DbChannel { id: s("X"), name: s("Channel X"), disabled: 0 });
    upsert_db_videos(
        &mut store,
        vec![row("A", "2024-01-01"), row("B", "2024-01-02"), row("D", "2024-01-03")],
    );
    store
}

fn listed(store: &Store) -> Vec<(String, String)> {
    get_db_upcoming_videos(store, &None).into_iter().map(|v| (v.id, v.title)).collect()
}

#[test]
fn refresh_asks_about_the_listed_videos() {
    let store = store_abd();
    assert_eq!(refresh_request(&store), strings(&["A", "B", "D"]));
    assert!(refresh_request(&init_db()).is_empty());
}

#[test]
fn refresh_dangling_deletes_missing_and_upserts_present() {
    let mut store = store_abd();
    let requested = refresh_request(&store);
    let response = Ok(vec![
        reported("A", "2024-01-01", Some("2024-01-01T00:00:10Z"), None),
        reported("D", "2024-01-03", None, None),
    ]);
    let changes = check_existing_videos(&mut store, &requested, &response);
    assert_eq!(changes.deletes, strings(&["B"]));
    assert_eq!(
        changes.upserts.iter().map(|v| v.id.clone()).collect::<Vec<_>>(),
        strings(&["A", "D"])
    );
    assert_eq!(changes.upserts[0].start_time, Some(s("2024-01-01T00:00:10Z")));
    assert_eq!(
        listed(&store),
        vec![(s("A"), s("new A")), (s("D"), s("new D"))]
    );
}

#[test]
fn refresh_dangling_ignores_videos_that_were_not_asked_about() {
    let mut store = store_abd();
    let requested = refresh_request(&store);
    let response = Ok(vec![
        reported("Z", "2024-01-09", None, None),
        reported("D", "2024-01-03", None, None),
    ]);
    let changes = check_existing_videos(&mut store, &requested, &response);
    assert_eq!(changes.deletes, strings(&["A", "B"]));
    assert_eq!(changes.upserts.len(), 1);
    assert_eq!(listed(&store), vec![(s("D"), s("new D"))]);
}

#[test]
fn refresh_with_more_reported_than_asked_is_dangling() {
    let requested = strings(&["A"]);
    let returned = vec![
        reported("A", "t", None, None),
        reported("Z", "t", None, None),
    ];
    assert_eq!(classify_refresh(&requested, &returned), RefreshOutcome::Dangling);
    let changes = plan_refresh(&requested, &returned);
    assert!(changes.deletes.is_empty());
    assert_eq!(changes.upserts.len(), 1);
    assert_eq!(changes.upserts[0].id, "A");
}

#[test]
fn refresh_with_empty_answer_deletes_all() {
    let mut store = store_abd();
    let requested = refresh_request(&store);
    let changes = check_existing_videos(&mut store, &requested, &Ok(vec![]));
    assert_eq!(changes.deletes, strings(&["A", "B", "D"]));
    assert!(changes.upserts.is_empty());
    assert!(listed(&store).is_empty());
}

#[test]
fn refresh_with_full_answer_upserts_all() {
    let mut store = store_abd();
    let requested = refresh_request(&store);
    let response = Ok(vec![
        reported("D", "2024-01-03", None, None),
        reported("B", "2024-01-02", Some("2024-01-02T00:00:01Z"), Some("2024-01-02T03:00:00Z")),
        reported("A", "2024-01-01", None, None),
    ]);
    let changes = check_existing_videos(&mut store, &requested, &response);
    assert!(changes.deletes.is_empty());
    assert_eq!(changes.upserts.len(), 3);
    assert_eq!(listed(&store), vec![(s("A"), s("new A")), (s("D"), s("new D"))]);
}

#[test]
fn refresh_failure_changes_nothing() {
    let mut store = store_abd();
    let before = listed(&store);
    let requested = refresh_request(&store);
    for error in [GatewayError::Transport, GatewayError::Status(500), GatewayError::NotFound] {
        let changes = check_existing_videos(&mut store, &requested, &Err(error));
        assert!(changes.deletes.is_empty());
        assert!(changes.upserts.is_empty());
        assert_eq!(listed(&store), before);
    }
    assert_eq!(refresh_request(&store), requested);
}

#[test]
fn refresh_with_empty_request_changes_nothing() {
    let mut store = store_abd();
    let before = listed(&store);
    let changes = check_existing_videos(&mut store, &vec![], &Ok(vec![reported("Z", "t", None, None)]));
    assert!(changes.deletes.is_empty());
    assert!(changes.upserts.is_empty());
    assert_eq!(listed(&store), before);
    let changes = check_existing_videos(&mut store, &vec![], &Ok(vec![]));
    assert!(changes.deletes.is_empty());
    assert_eq!(listed(&store), before);
}

#[test]
fn classification_goes_by_the_counts() {
    let requested = strings(&["A", "B"]);
    assert_eq!(classify_refresh(&requested, &vec![]), RefreshOutcome::DeleteAll);
    assert_eq!(
        classify_refresh(&requested, &vec![reported("B", "t", None, None), reported("A", "t", None, None)]),
        RefreshOutcome::UpsertAll
    );
    assert_eq!(
        classify_refresh(&requested, &vec![reported("B", "t", None, None)]),
        RefreshOutcome::Dangling
    );
    assert_eq!(classify_refresh(&vec![], &vec![]), RefreshOutcome::DeleteAll);
}

#[test]
fn classification_and_partition_ignore_order() {
    let one = plan_refresh(
        &strings(&["A", "B", "C", "D"]),
        &vec![reported("C", "t", None, None), reported("A", "t", None, None)],
    );
    let other = plan_refresh(
        &strings(&["D", "C", "B", "A"]),
        &vec![reported("A", "t", None, None), reported("C", "t", None, None)],
    );
    let mut gone_one = one.deletes.clone();
    let mut gone_other = other.deletes.clone();
    gone_one.sort();
    gone_other.sort();
    assert_eq!(gone_one, strings(&["B", "D"]));
    assert_eq!(gone_one, gone_other);
    let mut kept_one: Vec<String> = one.upserts.iter().map(|v| v.id.clone()).collect();
    let mut kept_other: Vec<String> = other.upserts.iter().map(|v| v.id.clone()).collect();
    kept_one.sort();
    kept_other.sort();
    assert_eq!(kept_one, strings(&["A", "C"]));
    assert_eq!(kept_one, kept_other);
}

#[test]
fn partition_splits_the_requested_ids() {
    let (missing, present) = partition_ids(&strings(&["A", "B", "D", "B"]), &strings(&["D", "A", "Q"]));
    assert_eq!(missing, strings(&["B", "B"]));
    assert_eq!(present, strings(&["A", "D"]));
    let (missing, present) = partition_ids(&strings(&["A"]), &vec![]);
    assert_eq!(missing, strings(&["A"]));
    assert!(present.is_empty());
    let (missing, present) = partition_ids(&vec![], &strings(&["A"]));
    assert!(missing.is_empty() && present.is_empty());
    assert!(contains_id(&strings(&["A", "B"]), &s("B")));
    assert!(!contains_id(&strings(&["A", "B"]), &s("b")));
}

#[test]
fn discovery_collects_candidates_in_order() {
    let probes = vec![strings(&["A", "B"]), vec![], strings(&["C", "A"])];
    assert_eq!(discovery_request(&probes), strings(&["A", "B", "C", "A"]));
    assert!(discovery_request(&vec![vec![], vec![]]).is_empty());
    assert!(discovery_request(&vec![]).is_empty());
}

#[test]
fn discovery_without_candidates_is_a_no_op() {
    let mut store = store_abd();
    let before = listed(&store);
    let found = discovery_request(&vec![vec![], vec![]]);
    let upserts = check_new_videos(&mut store, &found, &Ok(vec![reported("N", "2024-02-01", None, None)]));
    assert!(upserts.is_empty());
    assert_eq!(listed(&store), before);
}

#[test]
fn discovery_upserts_every_reported_video() {
    let mut store = store_abd();
    let found = strings(&["N", "A"]);
    let response = Ok(vec![
        reported("N", "2023-12-31", None, None),
        reported("A", "2024-01-01", None, None),
    ]);
    let upserts = check_new_videos(&mut store, &found, &response);
    assert_eq!(upserts.len(), 2);
    assert_eq!(upserts[0].channel_name, None);
    assert_eq!(
        listed(&store),
        vec![(s("N"), s("new N")), (s("A"), s("new A")), (s("B"), s("old B")), (s("D"), s("old D"))]
    );
}

#[test]
fn discovery_twice_is_discovery_once() {
    let mut once = store_abd();
    let mut twice = store_abd();
    let found = strings(&["N", "A", "N"]);
    let response = Ok(vec![
        reported("N", "2023-12-31", None, None),
        reported("A", "2024-01-01", None, None),
        reported("N", "2024-03-01", Some("2024-03-01T00:00:01Z"), None),
    ]);
    check_new_videos(&mut once, &found, &response);
    check_new_videos(&mut twice, &found, &response);
    check_new_videos(&mut twice, &found, &response);
    assert_eq!(get_db_upcoming_videos(&once, &None), get_db_upcoming_videos(&twice, &None));
    assert_eq!(get_db_channels(&once), get_db_channels(&twice));
    assert_eq!(listed(&once).len(), 4);
}

#[test]
fn discovery_failure_changes_nothing() {
    let mut store = store_abd();
    let before = listed(&store);
    let upserts = check_new_videos(&mut store, &strings(&["N"]), &Err(GatewayError::Status(403)));
    assert!(upserts.is_empty());
    assert_eq!(listed(&store), before);
}

#[test]
fn channel_update_passes_over_failures() {
    let mut store = init_db();
    upsert_db_channel(&mut store, DbChannel { id: s("X"), name: s("Old X"), disabled: 0 });
    upsert_db_channel(&mut store, DbChannel { id: s("Y"), name: s("Old Y"), disabled: 0 });
    let answers = vec![
        Err(GatewayError::Transport),
        Ok(YoutubeChannel { id: s("Y"), name: s("New Y") }),
    ];
    let written = update_channels(&mut store, &answers);
    assert_eq!(written, vec![DbChannel { id: s("Y"), name: s("New Y"), disabled: 0 }]);
    let mut active = get_db_channels(&store);
    active.sort_by(|a, b| a.id.cmp(&b.id));
    assert_eq!(
        active,
        vec![
            DbChannel { id: s("X"), name: s("Old X"), disabled: 0 },
            DbChannel { id: s("Y"), name: s("New Y"), disabled: 0 },
        ]
    );
    assert!(update_channels(&mut store, &vec![]).is_empty());
}

#[test]
fn bootstrap_asks_about_configured_channels_that_are_absent() {
    let config = Config::get(None, None, None, s("key"));
    let mut store = init_db();
    assert_eq!(
        bootstrap_request(&config, &store),
        strings(&[
            "UCb8dLvDvmZ-d92KEy_9oWog",
            "UC9iiZCKQ9jnIM7zZ_mRX_cg",
            "UCdubotSy4pPOsiaW4MrYn3Q",
            "UCtuoyOZhnxJ12pE294FdH8Q",
        ])
    );
    upsert_db_channel(
        &mut store,
        DbChannel { id: s("UC9iiZCKQ9jnIM7zZ_mRX_cg"), name: s("phish"), disabled: 1 },
    );
    assert_eq!(
        bootstrap_request(&config, &store),
        strings(&["UCb8dLvDvmZ-d92KEy_9oWog", "UCdubotSy4pPOsiaW4MrYn3Q", "UCtuoyOZhnxJ12pE294FdH8Q"])
    );
}

#[test]
fn bootstrap_writes_up_to_the_first_failure() {
    let mut store = init_db();
    let answers = vec![
        Ok(YoutubeChannel { id: s("one"), name: s("One") }),
        Err(GatewayError::NotFound),
        Ok(YoutubeChannel { id: s("three"), name: s("Three") }),
    ];
    let (written, failure) = init_scheduler(&mut store, &answers);
    assert_eq!(written, vec![DbChannel { id: s("one"), name: s("One"), disabled: 0 }]);
    assert_eq!(failure, Some(GatewayError::NotFound));
    assert!(has_db_channel(&store, &s("one")));
    assert!(!has_db_channel(&store, &s("three")));

    let mut store = init_db();
    let answers = vec![
        Ok(YoutubeChannel { id: s("one"), name: s("One") }),
        Ok(YoutubeChannel { id: s("two"), name: s("Two") }),
    ];
    let (written, failure) = init_scheduler(&mut store, &answers);
    assert_eq!(written.len(), 2);
    assert_eq!(failure, None);
    assert_eq!(get_db_channels(&store).len(), 2);
}

#[test]
fn channel_answer_is_read_by_status_and_items() {
    let one = YoutubeChannel { id: s("one"), name: s("One") };
    let two = YoutubeChannel { id: s("two"), name: s("Two") };
    assert_eq!(channel_from_response(200, Some(vec![one.clone(), two])), Ok(one.clone()));
    assert_eq!(channel_from_response(200, Some(vec![])), Err(GatewayError::NotFound));
    assert_eq!(channel_from_response(200, None), Err(GatewayError::NotFound));
    assert_eq!(channel_from_response(404, Some(vec![one])), Err(GatewayError::Status(404)));
    assert_eq!(channel_from_response(503, None), Err(GatewayError::Status(503)));
}

#[test]
fn channel_address_names_key_and_id() {
    assert_eq!(
        channel_url("KEY", "UC123"),
        "https://www.googleapis.com/youtube/v3/channels?part=id,snippet&key=KEY&id=UC123"
    );
}

#[test]
fn reported_records_become_rows() {
    let video = reported("A", "2024-01-01", Some("2024-01-01T00:00:10Z"), None);
    let row = DbVideo::from(&video);
    assert_eq!(
        row,
        DbVideo {
            id: s("A"),
            channel_id: s("X"),
            channel_name: None,
            title: s("new A"),
            scheduled_time: s("2024-01-01"),
            start_time: Some(s("2024-01-01T00:00:10Z")),
            end_time: None,
        }
    );
    let channel: DbChannel = YoutubeChannel { id: s("X"), name: s("Channel X") }.into();
    assert_eq!(channel, DbChannel { id: s("X"), name: s("Channel X"), disabled: 0 });
}

#[test]
fn feed_lists_video_ids_in_order() {
    let feed = "<feed><entry><id>yt:video:abc</id><yt:videoId>abc</yt:videoId></entry>\n<entry><yt:videoId>d-e_f</yt:videoId><yt:channelId>UC1</yt:channelId></entry></feed>";
    assert_eq!(video_ids(feed), strings(&["abc", "d-e_f"]));
    assert!(video_ids("").is_empty());
    assert!(video_ids("<feed></feed>").is_empty());
    assert_eq!(video_ids("<yt:videoId></yt:videoId>"), strings(&[""]));
    assert_eq!(video_ids("<yt:videoId>a</yt:videoId><yt:videoId>b"), strings(&["a"]));
    assert_eq!(
        video_ids("<yt:videoId>a<yt:videoId>b</yt:videoId>c</yt:videoId>"),
        strings(&["a<yt:videoId>b"])
    );
    assert_eq!(video_ids("</yt:videoId><yt:videoId>\u{65e5}\u{672c}</yt:videoId>"), strings(&["\u{65e5}\u{672c}"]));
}

#[test]
fn video_answer_is_read_by_status_and_items() {
    let item = |id: &str, scheduled: Option<&str>| VideoItem {
        id: s(id),
        channel_id: s("X"),
        title: format!("new {}", id),
        scheduled_time: scheduled.map(s),
        start_time: None,
        end_time: Some(s("e")),
    };
    assert_eq!(
        videos_from_response(200, Some(vec![item("A", Some("t")), item("B", None), item("C", Some("u"))])),
        Ok(vec![reported("A", "t", None, Some("e")), reported("C", "u", None, Some("e"))])
    );
    assert_eq!(videos_from_response(200, None), Ok(vec![]));
    assert_eq!(videos_from_response(200, Some(vec![])), Ok(vec![]));
    assert_eq!(videos_from_response(500, Some(vec![item("A", Some("t"))])), Err(GatewayError::Status(500)));
}

#[test]
fn addresses_for_videos_and_feeds() {
    assert_eq!(
        videos_url("KEY", &strings(&["a", "b", "c"])),
        "https://www.googleapis.com/youtube/v3/videos?part=id,snippet,liveStreamingDetails&key=KEY&id=a,b,c"
    );
    assert_eq!(
        videos_url("KEY", &vec![]),
        "https://www.googleapis.com/youtube/v3/videos?part=id,snippet,liveStreamingDetails&key=KEY&id="
    );
    assert_eq!(feed_url("UC1"), "https://www.youtube.com/feeds/videos.xml?channel_id=UC1");
}

#[test]
fn jobs_have_their_cadence() {
    assert_eq!(Job::Discovery.cron(), "0 0/5 * * * *");
    assert_eq!(Job::Refresh.cron(), "30 14,29,44,59 * * * *");
    assert_eq!(Job::Metadata.cron(), "0 0 0/6 * * *");
    assert_eq!(Job::Discovery.period_seconds(), 5 * 60);
    assert_eq!(Job::Refresh.period_seconds(), 15 * 60);
    assert_eq!(Job::Metadata.period_seconds(), 6 * 60 * 60);
    assert!(Job::Discovery.period_seconds() < Job::Refresh.period_seconds());
    assert!(Job::Refresh.period_seconds() < Job::Metadata.period_seconds());
}

#[test]
fn only_the_refresh_repopulates_a_cache() {
    assert_eq!(Job::Refresh.repopulates(), Some(Pages::Root));
    assert_eq!(Job::Discovery.repopulates(), None);
    assert_eq!(Job::Metadata.repopulates(), None);
}
