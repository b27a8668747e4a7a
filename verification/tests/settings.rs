use axum::http::HeaderValue;
use oshi_api::config::{parse_port, Config, LogLevel, DEFAULT_PORT};
use oshi_api::text::{join_text, text_begins_with, text_eq, text_has_part, text_le, to_chars};
use oshi_api::utils::{is_term, is_terminal, negotiate, wants_json, Reply};

fn s(text: &str) -> String {
    text.to_string()
}

#[test]
fn settings_default() {
    let config = Config::get(None, None, None, s("key"));
    assert_eq!(config.server.host, "127.0.0.1");
    assert_eq!(config.server.port, 3000);
    assert_eq!(DEFAULT_PORT, 3000);
    assert_eq!(config.server.log_level, LogLevel::Info);
    assert_eq!(config.youtube.apikey, "key");
    assert_eq!(config.browser_redirect, "https://github.com/killbasa/oshi-api");
    assert_eq!(
        config.oshi,
        vec![
            (s("furi"), s("UCb8dLvDvmZ-d92KEy_9oWog")),
            (s("phish"), s("UC9iiZCKQ9jnIM7zZ_mRX_cg")),
            (s("mono"), s("UCdubotSy4pPOsiaW4MrYn3Q")),
            (s("raki"), s("UCtuoyOZhnxJ12pE294FdH8Q")),
        ]
    );
}

#[test]
fn settings_from_values() {
    let config = Config::get(Some("1"), Some(s("0.0.0.0")), Some(s("8080")), s("k"));
    assert_eq!(config.server.host, "0.0.0.0");
    assert_eq!(config.server.port, 8080);
    assert_eq!(config.server.log_level, LogLevel::Debug);
    assert_eq!(Config::get(Some("true"), None, None, s("k")).server.log_level, LogLevel::Debug);
    assert_eq!(Config::get(Some("TRUE"), None, None, s("k")).server.log_level, LogLevel::Info);
    assert_eq!(Config::get(Some("0"), None, None, s("k")).server.log_level, LogLevel::Info);
    assert_eq!(Config::get(None, None, Some(s("http")), s("k")).server.port, 3000);
    assert_eq!(Config::get(None, None, Some(s("70000")), s("k")).server.port, 3000);
}

#[test]
fn ports_are_read_as_std_reads_them() {
    for text in ["0", "1", "80", "3000", "65535", "65536", "99999", "4294967296", "000080", "+80", "+", "", "-1", "8 0", " 80", "80 ", "8o", "++1", "１２", "99999999999999999999999"] {
        assert_eq!(parse_port(text), text.parse::<u16>().ok(), "{:?}", text);
    }
    assert_eq!(parse_port("65535"), Some(65535));
    assert_eq!(parse_port("65536"), None);
    assert_eq!(parse_port("+443"), Some(443));
}

#[test]
fn selector_for_an_alias() {
    let config = Config::get(None, None, None, s("key"));
    assert_eq!(config.selector(None), "all");
    assert_eq!(config.selector(Some("mono")), "UCdubotSy4pPOsiaW4MrYn3Q");
    assert_eq!(config.selector(Some("furi")), "UCb8dLvDvmZ-d92KEy_9oWog");
    assert_eq!(config.selector(Some("nobody")), "invalid");
    assert_eq!(config.selector(Some("")), "invalid");
    assert_eq!(config.selector(Some("all")), "invalid");
}

#[test]
fn terminals_are_known_by_their_user_agent() {
    assert!(is_term(Some(&HeaderValue::from_static("curl/8.4.0"))));
    assert!(is_term(Some(&HeaderValue::from_static("Mozilla/5.0 (like curl)"))));
    assert!(is_term(Some(&HeaderValue::from_static("Wget/1.21.4"))));
    assert!(!is_term(Some(&HeaderValue::from_static("Mozilla/5.0 Wget"))));
    assert!(!is_term(Some(&HeaderValue::from_static("Mozilla/5.0"))));
    assert!(!is_term(Some(&HeaderValue::from_static("CURL/8"))));
    assert!(!is_term(Some(&HeaderValue::from_static(""))));
    assert!(!is_term(None));
    assert!(is_terminal("xcurl"));
    assert!(!is_terminal("cur"));
    assert!(!is_terminal("wget"));
}

#[test]
fn header_that_is_not_text_says_nothing() {
    let value = HeaderValue::from_bytes(b"curl/8.4.0 \xfa").unwrap();
    assert!(value.to_str().is_err());
    assert!(!is_term(Some(&value)));
    let value = HeaderValue::from_bytes(b"application/json\xff").unwrap();
    assert!(!wants_json(Some(&value)));
    let tab = HeaderValue::from_bytes(b"curl\t8").unwrap();
    assert!(is_term(Some(&tab)));
}

#[test]
fn replies_are_negotiated() {
    let curl = HeaderValue::from_static("curl/8.4.0");
    let browser = HeaderValue::from_static("Mozilla/5.0");
    let json = HeaderValue::from_static("text/html, application/json;q=0.9");
    let html = HeaderValue::from_static("text/html");
    assert!(wants_json(Some(&json)));
    assert!(!wants_json(Some(&html)));
    assert!(!wants_json(None));
    assert_eq!(negotiate(Some(&curl), Some(&html)), Reply::Text);
    assert_eq!(negotiate(Some(&curl), None), Reply::Text);
    assert_eq!(negotiate(Some(&curl), Some(&json)), Reply::Json);
    assert_eq!(negotiate(Some(&browser), Some(&json)), Reply::Json);
    assert_eq!(negotiate(Some(&browser), Some(&html)), Reply::Redirect);
    assert_eq!(negotiate(None, None), Reply::Redirect);
}

#[test]
fn text_order_is_the_order_of_strings() {
    let samples = ["", "a", "ab", "b", "A", "2024-01-02T00:00:00Z", "2024-01-02", "é", "z", "日本", "\u{10000}", "\u{ffff}"];
    for a in samples {
        for b in samples {
            assert_eq!(text_le(a, b), a <= b, "{:?} {:?}", a, b);
            assert_eq!(text_eq(a, b), a == b, "{:?} {:?}", a, b);
        }
    }
}

#[test]
fn text_search_is_the_search_of_strings() {
    let texts = ["", "curl", "a curl b", "cur", "ccurl", "curcurl", "Wget", "日本curl語"];
    let parts = ["", "curl", "c", "l b", "rc", "語"];
    for t in texts {
        for p in parts {
            assert_eq!(text_has_part(t, p), t.contains(p), "{:?} {:?}", t, p);
            assert_eq!(text_begins_with(t, p), t.starts_with(p), "{:?} {:?}", t, p);
        }
    }
    assert_eq!(to_chars("aé日"), vec!['a', 'é', '日']);
}

#[test]
fn joining_puts_the_separator_between() {
    assert_eq!(join_text(&vec![], ","), "");
    assert_eq!(join_text(&vec![s("a")], ","), "a");
    assert_eq!(join_text(&vec![s("a"), s(""), s("c")], ", "), "a, , c");
}
