use oshi_api::api::{DbChannel, DbVideo};
use oshi_api::colors::Colorize;
use oshi_api::config::Config;
use oshi_api::pages::index::{format_video, format_video_json};
use oshi_api::pages::{index, list, refresh_page, selector_space, PageCache, PageContext, Pages, Render, RenderError, Site};
use oshi_api::sqlite::{init_db, upsert_db_channel, upsert_db_videos};

fn s(text: &str) -> String {
    text.to_string()
}

fn label(stamp: &str) -> (String, String) {
    (format!("<{}>", stamp), s("soon"))
}

fn ctx(key: Option<&str>) -> PageContext {
    PageContext { channel_id: key.map(s) }
}

fn video(id: &str, channel_id: &str, scheduled: &str, start: Option<&str>, end: Option<&str>) -> DbVideo {
    DbVideo {
        id: s(id),
        channel_id: s(channel_id),
        channel_name: None,
        title: format!("title {}", id),
        scheduled_time: s(scheduled),
        start_time: start.map(s),
        end_time: end.map(s),
    }
}

fn site() -> Site {
    let mut store = init_db();
    upsert_db_channel(&mut store, DbChannel { id: s("X"), name: s("Channel X"), disabled: 0 });
    upsert_db_channel(&mut store, DbChannel { id: s("Y"), name: s("Channel Y"), disabled: 0 });
    upsert_db_videos(
        &mut store,
        vec![
            video("a", "X", "2024-01-02", None, None),
            video("b", "Y", "2024-01-01", Some("2024-01-01T00:00:05Z"), None),
        ],
    );
    Site { config: Config::get(None, None, None, s("key")), store, cache: PageCache::new() }
}

fn tracked_site() -> Site {
    let mut site = site();
    for (alias, id) in site.config.oshi.clone() {
        upsert_db_channel(&mut site.store, DbChannel { id, name: format!("Name of {}", alias), disabled: 0 });
    }
    site
}

const ENTRY_A: &str = "\x1b[38;5;226m[upcoming]\x1b[0m \x1b[38;5;120mtitle a\x1b[0m\nchannel:   Channel X\nurl:       \x1b[38;5;117mhttps://www.youtube.com/watch?v=a\x1b[0m\nscheduled: <2024-01-02> UTC (soon)\n";
const ENTRY_B: &str = "\x1b[38;5;196m[live]\x1b[0m \x1b[38;5;120mtitle b\x1b[0m\nchannel:   Channel Y\nurl:       \x1b[38;5;117mhttps://www.youtube.com/watch?v=b\x1b[0m\nstarted:   <2024-01-01T00:00:05Z> UTC (soon)\n";
const JSON_A: &str = "{\"status\": \"upcoming\", \"title\": \"title a\", \"url\": \"https://www.youtube.com/watch?v=a\", \"id\": \"a\",\"channel\": {\"name\": \"Channel X\", \"id\": \"X\"}}";
const JSON_B: &str = "{\"status\": \"live\", \"title\": \"title b\", \"url\": \"https://www.youtube.com/watch?v=b\", \"id\": \"b\",\"channel\": {\"name\": \"Channel Y\", \"id\": \"Y\"}}";
const LIST_TEXT: &str = "furi\n  name: Name of furi\n  id:   UCb8dLvDvmZ-d92KEy_9oWog\nphish\n  name: Name of phish\n  id:   UC9iiZCKQ9jnIM7zZ_mRX_cg\nmono\n  name: Name of mono\n  id:   UCdubotSy4pPOsiaW4MrYn3Q\nraki\n  name: Name of raki\n  id:   UCtuoyOZhnxJ12pE294FdH8Q";

#[test]
fn colours_wrap_text_in_escape_sequences() {
    assert_eq!("x".light_blue(), "\x1b[38;5;117mx\x1b[0m");
    assert_eq!("x".green(), "\x1b[38;5;120mx\x1b[0m");
    assert_eq!("x".bright_red(), "\x1b[38;5;196mx\x1b[0m");
    assert_eq!("x".bright_yellow(), "\x1b[38;5;226mx\x1b[0m");
    assert_eq!("x".bright_purple(), "\x1b[38;5;129mx\x1b[0m");
    assert_eq!("".green(), "\x1b[38;5;120m\x1b[0m");
}

#[test]
fn video_entry_in_plain_text() {
    let mut v = video("a", "X", "2024-01-02", None, None);
    v.channel_name = Some(s("Channel X"));
    assert_eq!(format_video(&v, "<2024-01-02>", "soon"), ENTRY_A);
    v.channel_name = None;
    assert_eq!(
        format_video(&v, "d", "in 1h"),
        "\x1b[38;5;226m[upcoming]\x1b[0m \x1b[38;5;120mtitle a\x1b[0m\nurl:       \x1b[38;5;117mhttps://www.youtube.com/watch?v=a\x1b[0m\nscheduled: d UTC (in 1h)\n"
    );
    let ended = video("e", "X", "2024-01-02", Some("2024-01-02T00:00:01Z"), Some("2024-01-02T01:00:00Z"));
    assert_eq!(
        format_video(&ended, "d", "1h ago"),
        "\x1b[38;5;129m[ended]\x1b[0m \x1b[38;5;120mtitle e\x1b[0m\nurl:       \x1b[38;5;117mhttps://www.youtube.com/watch?v=e\x1b[0m\nstarted:   d UTC (1h ago)\n"
    );
}

#[test]
fn video_entry_as_json() {
    let mut v = video("a", "X", "2024-01-02", None, None);
    v.channel_name = Some(s("Channel X"));
    assert_eq!(format_video_json(&v), JSON_A);
    v.channel_name = None;
    v.end_time = Some(s("2024-01-02T01:00:00Z"));
    assert_eq!(
        format_video_json(&v),
        "{\"status\": \"ended\", \"title\": \"title a\", \"url\": \"https://www.youtube.com/watch?v=a\", \"id\": \"a\",\"channel\": {\"name\": \"null\", \"id\": \"X\"}}"
    );
}

#[test]
fn index_page_lists_the_selected_videos() {
    let mut site = site();
    let page = index::Page {};
    assert_eq!(page.render_text(&mut site, ctx(Some("all")), &label), Ok(format!("{}\n{}", ENTRY_B, ENTRY_A)));
    assert_eq!(page.render_text(&mut site, ctx(None), &label), Ok(format!("{}\n{}", ENTRY_B, ENTRY_A)));
    assert_eq!(page.render_text(&mut site, ctx(Some("X")), &label), Ok(s(ENTRY_A)));
    assert_eq!(page.render_text(&mut site, ctx(Some("Z")), &label), Ok(s("no upcoming streams")));
    assert_eq!(page.render_text(&mut site, ctx(Some("invalid")), &label), Ok(s("that channel is not tracked")));
    assert_eq!(
        page.render_json(&mut site, ctx(Some("all"))),
        Ok(format!("{{\"videos\": [{},{}]}}", JSON_B, JSON_A))
    );
    assert_eq!(page.render_json(&mut site, ctx(Some("Y"))), Ok(format!("{{\"videos\": [{}]}}", JSON_B)));
    assert_eq!(page.render_json(&mut site, ctx(Some("Z"))), Ok(s("{\"videos\": []}")));
    assert_eq!(page.render_json(&mut site, ctx(Some("invalid"))), Ok(s("that channel is not tracked")));
}

#[test]
fn list_page_lists_the_configured_channels() {
    let mut site = tracked_site();
    let page = list::Page {};
    assert_eq!(page.render_text(&mut site, ctx(None), &label), Ok(s(LIST_TEXT)));
    assert_eq!(
        page.render_json(&mut site, ctx(None)),
        Ok(s("{\"channels\": [{\"alias\": \"furi\", \"name\": \"Name of furi\", \"id\": \"UCb8dLvDvmZ-d92KEy_9oWog\"},{\"alias\": \"phish\", \"name\": \"Name of phish\", \"id\": \"UC9iiZCKQ9jnIM7zZ_mRX_cg\"},{\"alias\": \"mono\", \"name\": \"Name of mono\", \"id\": \"UCdubotSy4pPOsiaW4MrYn3Q\"},{\"alias\": \"raki\", \"name\": \"Name of raki\", \"id\": \"UCtuoyOZhnxJ12pE294FdH8Q\"}]}"))
    );
}

#[test]
fn list_page_without_channels() {
    let mut site = Site { config: Config::get(None, None, None, s("key")), store: init_db(), cache: PageCache::new() };
    let page = list::Page {};
    assert_eq!(page.render_text(&mut site, ctx(None), &label), Ok(s("no channels found")));
    assert_eq!(page.render_json(&mut site, ctx(None)), Ok(s("{\"channels\": []}")));
}

#[test]
fn list_page_fails_on_an_untracked_channel() {
    let mut site = site();
    let page = list::Page {};
    assert_eq!(page.render_text(&mut site, ctx(None), &label), Err(RenderError::UntrackedChannel));
    assert_eq!(page.render_json(&mut site, ctx(None)), Err(RenderError::UntrackedChannel));
    let mut full = tracked_site();
    upsert_db_channel(
        &mut full.store,
        DbChannel { id: s("UCdubotSy4pPOsiaW4MrYn3Q"), name: s("mono"), disabled: 1 },
    );
    assert_eq!(page.render_text(&mut full, ctx(None), &label), Err(RenderError::UntrackedChannel));
}

#[test]
fn cache_renders_once_and_serves_after() {
    let mut site = site();
    let first = Pages::Root.render_text(&mut site, ctx(Some("X")), &label);
    assert_eq!(first, Ok(s(ENTRY_A)));
    upsert_db_videos(&mut site.store, vec![video("c", "X", "2024-01-01", None, None)]);
    let other = |_: &str| (s("other"), s("label"));
    assert_eq!(Pages::Root.render_text(&mut site, ctx(Some("X")), &other), Ok(s(ENTRY_A)));
    assert_eq!(Pages::Root.render_json(&mut site, ctx(Some("X"))).unwrap().matches("\"id\": \"c\"").count(), 1);
    upsert_db_videos(&mut site.store, vec![video("d", "X", "2024-01-03", None, None)]);
    assert_eq!(Pages::Root.render_json(&mut site, ctx(Some("X"))).unwrap().matches("\"id\": \"d\"").count(), 0);
}

#[test]
fn cache_keeps_the_formats_and_kinds_apart() {
    let mut site = tracked_site();
    assert_eq!(Pages::List.render_text(&mut site, ctx(None), &label), Ok(s(LIST_TEXT)));
    let json = Pages::List.render_json(&mut site, ctx(None)).unwrap();
    assert!(json.starts_with("{\"channels\": ["));
    let root = Pages::Root.render_text(&mut site, ctx(None), &label).unwrap();
    assert_eq!(root, format!("{}\n{}", ENTRY_B, ENTRY_A));
    let root_json = Pages::Root.render_json(&mut site, ctx(None)).unwrap();
    assert!(root_json.starts_with("{\"videos\": ["));
    assert_eq!(Pages::List.render_text(&mut site, ctx(None), &label), Ok(s(LIST_TEXT)));
}

#[test]
fn failed_render_hands_out_empty_content_and_caches_nothing() {
    let mut site = site();
    assert_eq!(Pages::List.render_text(&mut site, ctx(None), &label), Ok(s("")));
    assert_eq!(Pages::List.render_json(&mut site, ctx(None)), Ok(s("")));
    for (alias, id) in site.config.oshi.clone() {
        upsert_db_channel(&mut site.store, DbChannel { id, name: format!("Name of {}", alias), disabled: 0 });
    }
    assert_eq!(Pages::List.render_text(&mut site, ctx(None), &label), Ok(s(LIST_TEXT)));
}

#[test]
fn repopulation_replaces_every_selector_of_the_space() {
    let mut site = site();
    assert_eq!(Pages::Root.render_text(&mut site, ctx(Some("X")), &label), Ok(s(ENTRY_A)));
    assert_eq!(Pages::Root.render_text(&mut site, ctx(Some("invalid")), &label), Ok(s("that channel is not tracked")));
    upsert_db_videos(&mut site.store, vec![video("a", "X", "2024-01-02", None, Some("2024-01-02T05:00:00Z"))]);
    assert_eq!(Pages::Root.render_text(&mut site, ctx(Some("X")), &label), Ok(s(ENTRY_A)));
    assert_eq!(refresh_page(Pages::Root, &mut site, &label), Ok(()));
    upsert_db_videos(&mut site.store, vec![video("z", "X", "2024-01-09", None, None)]);
    let never = |_: &str| (s("never"), s("asked"));
    assert_eq!(Pages::Root.render_text(&mut site, ctx(Some("X")), &never), Ok(s("no upcoming streams")));
    assert_eq!(Pages::Root.render_text(&mut site, ctx(Some("Y")), &never), Ok(s(ENTRY_B)));
    assert_eq!(Pages::Root.render_text(&mut site, ctx(Some("all")), &never), Ok(s(ENTRY_B)));
    assert_eq!(Pages::Root.render_json(&mut site, ctx(Some("X"))), Ok(s("{\"videos\": []}")));
    assert_eq!(Pages::Root.render_json(&mut site, ctx(Some("all"))), Ok(format!("{{\"videos\": [{}]}}", JSON_B)));
    assert_eq!(Pages::Root.render_text(&mut site, ctx(Some("invalid")), &never), Ok(s("that channel is not tracked")));
}

#[test]
fn repopulation_of_the_channel_list() {
    let mut site = tracked_site();
    assert_eq!(refresh_page(Pages::List, &mut site, &label), Ok(()));
    upsert_db_channel(&mut site.store, DbChannel { id: s("UCb8dLvDvmZ-d92KEy_9oWog"), name: s("Renamed"), disabled: 0 });
    assert_eq!(Pages::List.render_text(&mut site, ctx(None), &label), Ok(s(LIST_TEXT)));
    assert_eq!(refresh_page(Pages::List, &mut site, &label), Ok(()));
    assert_eq!(
        Pages::List.render_text(&mut site, ctx(None), &label),
        Ok(LIST_TEXT.replace("Name of furi", "Renamed"))
    );
}

#[test]
fn repopulation_reports_a_failed_render_and_leaves_no_entry() {
    let mut site = tracked_site();
    assert_eq!(Pages::List.render_text(&mut site, ctx(None), &label), Ok(s(LIST_TEXT)));
    upsert_db_channel(&mut site.store, DbChannel { id: s("UCb8dLvDvmZ-d92KEy_9oWog"), name: s("furi"), disabled: 1 });
    assert_eq!(refresh_page(Pages::List, &mut site, &label), Err(RenderError::UntrackedChannel));
    assert_eq!(Pages::List.render_text(&mut site, ctx(None), &label), Ok(s("")));
    assert_eq!(refresh_page(Pages::Root, &mut site, &label), Ok(()));
}

#[test]
fn selector_space_of_each_kind() {
    let site = site();
    assert_eq!(selector_space(Pages::List, &site.store), vec![None]);
    let mut keys = selector_space(Pages::Root, &site.store);
    keys.sort();
    assert_eq!(keys, vec![Some(s("X")), Some(s("Y")), Some(s("all"))]);
}
