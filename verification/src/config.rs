//! The settings that the service runs with.

use vstd::prelude::*;
use vstd::string::*;
use crate::text::{all_digits, decimal, lemma_decimal_grows, text_eq};

verus! {

/// How much the service logs.
#[derive(Debug, Clone, Copy, PartialEq, Eq, Structural)]
pub enum LogLevel {
    Debug,
    Info,
}

/// Where the service listens, and how much it logs.
pub struct ServerConfig {
    pub host: String,
    pub port: u16,
    pub log_level: LogLevel,
}

/// The key for the content API.
pub struct YoutubeConfig {
    pub apikey: String,
}

/// The settings. `oshi` lists the tracked channels, each as an alias and the
/// channel's id, in the order in which the channel list shows them.
pub struct Config {
    pub server: ServerConfig,
    pub youtube: YoutubeConfig,
    pub browser_redirect: String,
    pub oshi: Vec<(String, String)>,
}

/// The port that is listened on where none is set, or none that can be
/// read.
pub const DEFAULT_PORT: u16 = 3000;

/// The aliases of the tracked channels, in their order.
pub open spec fn aliases(oshi: Seq<(String, String)>) -> Seq<Seq<char>> {
    oshi.map_values(|e: (String, String)| e.0@)
}

/// The ids of the tracked channels, in their order.
pub open spec fn tracked_ids(oshi: Seq<(String, String)>) -> Seq<Seq<char>> {
    oshi.map_values(|e: (String, String)| e.1@)
}

/// The text without a leading plus sign.
pub open spec fn unsigned(s: Seq<char>) -> Seq<char> {
    if s.len() > 0 && s[0] == '+' {
        s.drop_first()
    } else {
        s
    }
}

/// The port that a text writes: decimal digits, at least one, after at most
/// one plus sign, and no more than a port can be.
pub open spec fn port_of(s: Seq<char>) -> Option<u16> {
    let digits = unsigned(s);
    if digits.len() > 0 && all_digits(digits) && decimal(digits) <= u16::MAX {
        Some(decimal(digits) as u16)
    } else {
        None
    }
}

/// Reads a port.
pub fn parse_port(s: &str) -> (r: Option<u16>)
    ensures
        r == port_of(s@),
{
    let n = s.unicode_len();
    let start: usize = if n > 0 && s.get_char(0) == '+' {
        1
    } else {
        0
    };
    let ghost digits = unsigned(s@);
    assert(digits =~= s@.subrange(start as int, n as int));
    if start == n {
        return None;
    }
    let mut acc: u32 = 0;
    let mut i: usize = start;
    while i < n
        invariant
            n == s@.len(),
            start <= i <= n,
            digits == unsigned(s@),
            digits == s@.subrange(start as int, n as int),
            all_digits(digits.take(i - start)),
            acc == decimal(digits.take(i - start)),
            acc <= u16::MAX,
        decreases n - i,
    {
        let c = s.get_char(i);
        let code = c as u32;
        if code < 48 || code > 57 {
            assert(!('0' <= digits[i - start] <= '9'));
            return None;
        }
        acc = acc * 10 + (code - 48);
        proof {
            let upto = digits.take(i + 1 - start);
            assert(upto.drop_last() =~= digits.take(i - start));
            assert(upto.last() == c);
            assert forall|k: int| 0 <= k < upto.len() implies '0' <= #[trigger] upto[k] <= '9' by {
                if k < upto.len() - 1 {
                    assert(digits.take(i - start)[k] == upto[k]);
                }
            }
        }
        if acc > 65535 {
            proof {
                if all_digits(digits) {
                    lemma_decimal_grows(digits, i + 1 - start);
                }
            }
            return None;
        }
        i += 1;
    }
    assert(digits.take(n - start) =~= digits);
    Some(acc as u16)
}

/// How much to log for a setting of the debug switch: everything for `1` or
/// `true`, the usual otherwise.
pub open spec fn level_of(debug_log: Option<Seq<char>>) -> LogLevel {
    match debug_log {
        Some(s) => if s == "1"@ || s == "true"@ {
            LogLevel::Debug
        } else {
            LogLevel::Info
        },
        None => LogLevel::Info,
    }
}

/// The port for a setting: the port that it writes, and the default where it
/// is missing or writes none.
pub open spec fn port_setting(port: Option<Seq<char>>) -> u16 {
    match port {
        Some(s) => match port_of(s) {
            Some(p) => p,
            None => DEFAULT_PORT,
        },
        None => DEFAULT_PORT,
    }
}

/// The channel id that an alias stands for: that of the first tracked
/// channel with this alias.
pub open spec fn resolve(oshi: Seq<(String, String)>, alias: Seq<char>) -> Option<Seq<char>>
    decreases oshi.len(),
{
    if oshi.len() == 0 {
        None
    } else if oshi[0].0@ == alias {
        Some(oshi[0].1@)
    } else {
        resolve(oshi.drop_first(), alias)
    }
}

/// The selector for a request: the word for all channels where no alias is
/// given, the channel's id for a known alias, the word for an unknown alias
/// for any other.
pub open spec fn selector_of(oshi: Seq<(String, String)>, alias: Option<Seq<char>>) -> Seq<char> {
    match alias {
        None => "all"@,
        Some(a) => match resolve(oshi, a) {
            Some(id) => id,
            None => "invalid"@,
        },
    }
}

/// A tracked channel.
fn pair(alias: &str, id: &str) -> (r: (String, String))
    ensures
        r.0@ == alias@,
        r.1@ == id@,
{
    (String::from_str(alias), String::from_str(id))
}

impl Config {
    /// The settings for what the environment holds: the debug switch, the
    /// host, the port, and the key for the content API. The tracked channels
    /// and the address for browsers are fixed.
    pub fn get(debug_log: Option<&str>, host: Option<String>, port: Option<String>, apikey: String) -> (c:
        Config)
        ensures
            c.server.log_level == level_of(
                match debug_log {
                    Some(s) => Some(s@),
                    None => None,
                },
            ),
            c.server.host@ == (match host {
                Some(h) => h@,
                None => "127.0.0.1"@,
            }),
            c.server.port == port_setting(
                match port {
                    Some(p) => Some(p@),
                    None => None,
                },
            ),
            c.youtube.apikey == apikey,
            c.browser_redirect@ == "https://github.com/killbasa/oshi-api"@,
            aliases(c.oshi@) == seq!["furi"@, "phish"@, "mono"@, "raki"@],
            tracked_ids(c.oshi@) == seq![
                "UCb8dLvDvmZ-d92KEy_9oWog"@,
                "UC9iiZCKQ9jnIM7zZ_mRX_cg"@,
                "UCdubotSy4pPOsiaW4MrYn3Q"@,
                "UCtuoyOZhnxJ12pE294FdH8Q"@,
            ],
    {
        let log_level = match debug_log {
            Some(s) => if text_eq(s, "1") || text_eq(s, "true") {
                LogLevel::Debug
            } else {
                LogLevel::Info
            },
            None => LogLevel::Info,
        };
        let host = match host {
            Some(h) => h,
            None => String::from_str("127.0.0.1"),
        };
        let port = match port {
            Some(p) => match parse_port(p.as_str()) {
                Some(n) => n,
                None => DEFAULT_PORT,
            },
            None => DEFAULT_PORT,
        };
        let mut oshi: Vec<(String, String)> = Vec::new();
        oshi.push(pair("furi", "UCb8dLvDvmZ-d92KEy_9oWog"));
        oshi.push(pair("phish", "UC9iiZCKQ9jnIM7zZ_mRX_cg"));
        oshi.push(pair("mono", "UCdubotSy4pPOsiaW4MrYn3Q"));
        oshi.push(pair("raki", "UCtuoyOZhnxJ12pE294FdH8Q"));
        assert(aliases(oshi@) =~= seq!["furi"@, "phish"@, "mono"@, "raki"@]);
        assert(tracked_ids(oshi@) =~= seq![
            "UCb8dLvDvmZ-d92KEy_9oWog"@,
            "UC9iiZCKQ9jnIM7zZ_mRX_cg"@,
            "UCdubotSy4pPOsiaW4MrYn3Q"@,
            "UCtuoyOZhnxJ12pE294FdH8Q"@,
        ]);
        Config {
            server: ServerConfig { host, port, log_level },
            youtube: YoutubeConfig { apikey },
            browser_redirect: String::from_str("https://github.com/killbasa/oshi-api"),
            oshi,
        }
    }

    /// The selector for a request that names an alias, or none.
    pub fn selector(&self, alias: Option<&str>) -> (r: String)
        ensures
            r@ == selector_of(self.oshi@, match alias {
                Some(a) => Some(a@),
                None => None,
            }),
    {
        match alias {
            None => String::from_str("all"),
            Some(a) => {
                let mut i: usize = 0;
                assert(self.oshi@.skip(0) =~= self.oshi@);
                while i < self.oshi.len()
                    invariant
                        i <= self.oshi.len(),
                        alias == Some(a),
                        resolve(self.oshi@, a@) == resolve(self.oshi@.skip(i as int), a@),
                    decreases self.oshi.len() - i,
                {
                    assert(self.oshi@.skip(i as int)[0] == self.oshi@[i as int]);
                    if text_eq(self.oshi[i].0.as_str(), a) {
                        proof {
                            let rest = self.oshi@.skip(i as int);
                            assert(rest.len() > 0 && rest[0].0@ == a@);
                            assert(resolve(rest, a@) == Some(rest[0].1@));
                        }
                        return self.oshi[i].1.clone();
                    }
                    assert(self.oshi@.skip(i as int).drop_first() =~= self.oshi@.skip(i + 1));
                    i += 1;
                }
                String::from_str("invalid")
            },
        }
    }
}

} // verus!
