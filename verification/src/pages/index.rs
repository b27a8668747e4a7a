//! The page of upcoming videos.

use vstd::prelude::*;
use vstd::string::*;
use crate::api::{DbVideo, Lifecycle, VideoRow, opt_text, video_rows};
use crate::colors::{Colorize, colored};
use crate::pages::cache::Selector;
use crate::pages::{PageContext, Render, RenderError, Site, humanized};
use crate::sqlite::{Tables, get_db_upcoming_videos, lists_upcoming};
use crate::text::{join, join_text, text_eq};

verus! {

/// The page of upcoming videos.
pub struct Page {}

/// The channel whose videos a selector asks for; none where it asks for
/// those of all channels.
pub open spec fn selection(key: Selector) -> Selector {
    match key {
        Some(c) => if c == "all"@ {
            None
        } else {
            Some(c)
        },
        None => None,
    }
}

/// The timestamp that a video's entry shows: when it started, or else when
/// it is scheduled.
pub open spec fn stamp(row: VideoRow) -> Seq<char> {
    match row.start_time {
        Some(t) => t,
        None => row.scheduled_time,
    }
}

/// The coloured tag of a video's lifecycle state.
pub open spec fn status_tag(row: VideoRow) -> Seq<char> {
    match row.lifecycle() {
        Lifecycle::Ended => colored("129"@, "[ended]"@),
        Lifecycle::Live => colored("196"@, "[live]"@),
        Lifecycle::Upcoming => colored("226"@, "[upcoming]"@),
    }
}

/// The word for a video's lifecycle state.
pub open spec fn status_word(row: VideoRow) -> Seq<char> {
    match row.lifecycle() {
        Lifecycle::Ended => "ended"@,
        Lifecycle::Live => "live"@,
        Lifecycle::Upcoming => "upcoming"@,
    }
}

/// The address at which a video is watched.
pub open spec fn watch_url(id: Seq<char>) -> Seq<char> {
    "https://www.youtube.com/watch?v="@ + id
}

/// The line that names a video's channel, where the name is known.
pub open spec fn channel_line(row: VideoRow) -> Seq<char> {
    match row.channel_name {
        Some(name) => "channel:   "@ + name + "\n"@,
        None => Seq::empty(),
    }
}

/// The line that says when a video started or is scheduled.
pub open spec fn time_line(row: VideoRow, date: Seq<char>, diff: Seq<char>) -> Seq<char> {
    (if row.start_time is Some {
        "started:   "@
    } else {
        "scheduled: "@
    }) + date + " UTC ("@ + diff + ")\n"@
}

/// The plain-text entry of a video, with the date and the distance in time
/// that its timestamp was given.
pub open spec fn video_text(row: VideoRow, date: Seq<char>, diff: Seq<char>) -> Seq<char> {
    status_tag(row) + " "@ + colored("120"@, row.title) + "\n"@ + channel_line(row)
        + "url:       "@ + colored("117"@, watch_url(row.id)) + "\n"@ + time_line(row, date, diff)
}

/// The JSON object of a video's channel.
pub open spec fn channel_json(row: VideoRow) -> Seq<char> {
    "{\"name\": \""@ + (match row.channel_name {
        Some(name) => name,
        None => "null"@,
    }) + "\", \"id\": \""@ + row.channel_id + "\"}"@
}

/// The JSON object of a video.
pub open spec fn video_json(row: VideoRow) -> Seq<char> {
    "{\"status\": \""@ + status_word(row) + "\", \"title\": \""@ + row.title + "\", \"url\": \""@
        + watch_url(row.id) + "\", \"id\": \""@ + row.id + "\",\"channel\": "@ + channel_json(row)
        + "}"@
}

/// The plain-text page for a listing and the labels of its timestamps.
pub open spec fn listing_text(listing: Seq<VideoRow>, labels: Seq<(Seq<char>, Seq<char>)>) -> Seq<
    char,
> {
    if listing.len() == 0 {
        "no upcoming streams"@
    } else {
        join(
            Seq::new(listing.len(), |i: int| video_text(listing[i], labels[i].0, labels[i].1)),
            "\n"@,
        )
    }
}

/// The JSON page for a listing.
pub open spec fn listing_json(listing: Seq<VideoRow>) -> Seq<char> {
    if listing.len() == 0 {
        "{\"videos\": []}"@
    } else {
        "{\"videos\": ["@ + join(listing.map_values(|row: VideoRow| video_json(row)), ","@) + "]}"@
    }
}

/// `out` is the plain-text page for this listing of the selected videos and
/// these labels, each of which `humanize` gave for its row's timestamp.
pub open spec fn text_from<F: Fn(&str) -> (String, String)>(
    tables: Tables,
    key: Selector,
    humanize: &F,
    listing: Seq<VideoRow>,
    labels: Seq<(Seq<char>, Seq<char>)>,
    out: Seq<char>,
) -> bool {
    &&& lists_upcoming(tables, selection(key), listing)
    &&& labels.len() == listing.len()
    &&& forall|i: int|
        0 <= i < listing.len() ==> humanized(humanize, stamp(#[trigger] listing[i]), labels[i])
    &&& out == listing_text(listing, labels)
}

/// `out` is a plain-text rendering of the page: a fixed sentence for the
/// selector that stands for an unknown alias, and otherwise the page for a
/// listing of the selected videos, with labels that `humanize` gave.
pub open spec fn is_index_text<F: Fn(&str) -> (String, String)>(
    tables: Tables,
    key: Selector,
    humanize: &F,
    out: Seq<char>,
) -> bool {
    if key == Some("invalid"@) {
        out == "that channel is not tracked"@
    } else {
        exists|listing: Seq<VideoRow>, labels: Seq<(Seq<char>, Seq<char>)>| #[trigger]
            text_from(tables, key, humanize, listing, labels, out)
    }
}

/// `out` is a JSON rendering of the page.
pub open spec fn is_index_json(tables: Tables, key: Selector, out: Seq<char>) -> bool {
    if key == Some("invalid"@) {
        out == "that channel is not tracked"@
    } else {
        exists|listing: Seq<VideoRow>| #[trigger]
            lists_upcoming(tables, selection(key), listing) && out == listing_json(listing)
    }
}

/// Whether a selector is this word.
pub fn is_word(key: &Option<String>, word: &str) -> (r: bool)
    ensures
        r == (opt_text(*key) == Some(word@)),
{
    match key {
        Some(c) => text_eq(c.as_str(), word),
        None => false,
    }
}

/// The plain-text entry of a video, with the date and the distance in time
/// that its timestamp was given.
pub fn format_video(video: &DbVideo, date: &str, diff: &str) -> (entry: String)
    ensures
        entry@ == video_text(video@, date@, diff@),
{
    let status: String = match video.lifecycle() {
        Lifecycle::Ended => "[ended]".bright_purple(),
        Lifecycle::Live => "[live]".bright_red(),
        Lifecycle::Upcoming => "[upcoming]".bright_yellow(),
    };
    let title = video.title.as_str().green();
    let mut address = String::from_str("https://www.youtube.com/watch?v=");
    address.append(video.id.as_str());
    let url = address.as_str().light_blue();

    let mut entry = status;
    entry.append(" ");
    entry.append(title.as_str());
    entry.append("\n");
    match &video.channel_name {
        Some(name) => {
            let ghost before = entry@;
            entry.append("channel:   ");
            entry.append(name.as_str());
            entry.append("\n");
            assert(entry@ =~= before + channel_line(video@));
        },
        None => {
            assert(entry@ =~= entry@ + channel_line(video@));
        },
    }
    entry.append("url:       ");
    entry.append(url.as_str());
    entry.append("\n");
    let ghost before = entry@;
    if video.start_time.is_some() {
        entry.append("started:   ");
    } else {
        entry.append("scheduled: ");
    }
    entry.append(date);
    entry.append(" UTC (");
    entry.append(diff);
    entry.append(")\n");
    assert(entry@ =~= before + time_line(video@, date@, diff@));
    entry
}

/// The JSON object of a video.
pub fn format_video_json(video: &DbVideo) -> (entry: String)
    ensures
        entry@ == video_json(video@),
{
    let mut channel = String::from_str("{\"name\": \"");
    match &video.channel_name {
        Some(name) => channel.append(name.as_str()),
        None => channel.append("null"),
    }
    channel.append("\", \"id\": \"");
    channel.append(video.channel_id.as_str());
    channel.append("\"}");

    let status = match video.lifecycle() {
        Lifecycle::Ended => "ended",
        Lifecycle::Live => "live",
        Lifecycle::Upcoming => "upcoming",
    };
    let mut entry = String::from_str("{\"status\": \"");
    entry.append(status);
    entry.append("\", \"title\": \"");
    entry.append(video.title.as_str());
    entry.append("\", \"url\": \"");
    let ghost before = entry@;
    entry.append("https://www.youtube.com/watch?v=");
    entry.append(video.id.as_str());
    assert(entry@ =~= before + watch_url(video@.id));
    entry.append("\", \"id\": \"");
    entry.append(video.id.as_str());
    entry.append("\",\"channel\": ");
    entry.append(channel.as_str());
    entry.append("}");
    entry
}

/// The soonest upcoming videos that a selector asks for.
fn selected_videos(site: &Site, key: &Option<String>) -> (videos: Vec<DbVideo>)
    requires
        site.wf(),
    ensures
        lists_upcoming(site.store@, selection(opt_text(*key)), video_rows(videos@)),
{
    if key.is_none() || is_word(key, "all") {
        get_db_upcoming_videos(&site.store, &None)
    } else {
        get_db_upcoming_videos(&site.store, key)
    }
}

impl Render for Page {
    /// The upcoming videos that the selector asks for, one entry each, in
    /// plain text.
    fn render_text<F: Fn(&str) -> (String, String)>(
        &self,
        site: &mut Site,
        ctx: PageContext,
        humanize: &F,
    ) -> (r: Result<String, RenderError>)
        ensures
            *final(site) == *old(site),
            r matches Ok(t) && is_index_text(
                old(site).store@,
                opt_text(ctx.channel_id),
                humanize,
                t@,
            ),
    {
        let ghost key = opt_text(ctx.channel_id);
        if is_word(&ctx.channel_id, "invalid") {
            return Ok(String::from_str("that channel is not tracked"));
        }
        let videos = selected_videos(site, &ctx.channel_id);
        let ghost listing = video_rows(videos@);
        if videos.len() == 0 {
            let out = String::from_str("no upcoming streams");
            proof {
                let labels = Seq::<(Seq<char>, Seq<char>)>::empty();
                assert(text_from(site.store@, key, humanize, listing, labels, out@));
            }
            return Ok(out);
        }
        let mut entries: Vec<String> = Vec::new();
        let ghost mut labels = Seq::<(Seq<char>, Seq<char>)>::empty();
        let mut i: usize = 0;
        while i < videos.len()
            invariant
                i <= videos.len(),
                listing == video_rows(videos@),
                entries.len() == i,
                labels.len() == i,
                forall|s: &str| call_requires(*humanize, (s,)),
                forall|k: int|
                    0 <= k < i ==> humanized(humanize, stamp(#[trigger] listing[k]), labels[k]),
                forall|k: int|
                    0 <= k < i ==> (#[trigger] entries[k])@ == video_text(
                        listing[k],
                        labels[k].0,
                        labels[k].1,
                    ),
            decreases videos.len() - i,
        {
            let video = &videos[i];
            let when: &str = match &video.start_time {
                Some(t) => t.as_str(),
                None => video.scheduled_time.as_str(),
            };
            let (date, diff) = humanize(when);
            let entry = format_video(video, date.as_str(), diff.as_str());
            proof {
                assert(when@ == stamp(listing[i as int]));
                assert(call_ensures(*humanize, (when,), (date, diff)));
                assert(humanized(humanize, stamp(listing[i as int]), (date@, diff@)));
                labels = labels.push((date@, diff@));
            }
            entries.push(entry);
            i += 1;
        }
        let out = join_text(&entries, "\n");
        proof {
            assert(entries@.map_values(|s: String| s@) =~= Seq::new(
                listing.len(),
                |i: int| video_text(listing[i], labels[i].0, labels[i].1),
            ));
            assert(text_from(site.store@, key, humanize, listing, labels, out@));
        }
        Ok(out)
    }

    /// The upcoming videos that the selector asks for, as JSON.
    fn render_json(&self, site: &mut Site, ctx: PageContext) -> (r: Result<String, RenderError>)
        ensures
            *final(site) == *old(site),
            r matches Ok(t) && is_index_json(old(site).store@, opt_text(ctx.channel_id), t@),
    {
        if is_word(&ctx.channel_id, "invalid") {
            return Ok(String::from_str("that channel is not tracked"));
        }
        let videos = selected_videos(site, &ctx.channel_id);
        let ghost listing = video_rows(videos@);
        if videos.len() == 0 {
            return Ok(String::from_str("{\"videos\": []}"));
        }
        let mut entries: Vec<String> = Vec::new();
        let mut i: usize = 0;
        while i < videos.len()
            invariant
                i <= videos.len(),
                listing == video_rows(videos@),
                entries.len() == i,
                forall|k: int| 0 <= k < i ==> (#[trigger] entries[k])@ == video_json(listing[k]),
            decreases videos.len() - i,
        {
            entries.push(format_video_json(&videos[i]));
            i += 1;
        }
        let mut out = String::from_str("{\"videos\": [");
        out.append(join_text(&entries, ",").as_str());
        out.append("]}");
        proof {
            assert(entries@.map_values(|s: String| s@) =~= listing.map_values(
                |row: VideoRow| video_json(row),
            ));
        }
        Ok(out)
    }
}

} // verus!
