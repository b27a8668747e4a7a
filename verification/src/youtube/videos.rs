//! Asking upstream about videos.

use vstd::prelude::*;
use vstd::string::*;
use crate::api::{clone_opt, texts};
use crate::text::{join, join_text};
use crate::youtube::{GatewayError, YoutubeVideo};

verus! {

/// A video as the content API lists it. A video that was never scheduled as
/// a broadcast has no scheduled time.
#[derive(Debug, PartialEq, Eq)]
pub struct VideoItem {
    pub id: String,
    pub channel_id: String,
    pub title: String,
    pub scheduled_time: Option<String>,
    pub start_time: Option<String>,
    pub end_time: Option<String>,
}

/// The address of a channel's feed.
pub open spec fn feed_url_text(channel_id: Seq<char>) -> Seq<char> {
    "https://www.youtube.com/feeds/videos.xml?channel_id="@ + channel_id
}

/// The address that answers for the videos with these ids.
pub open spec fn videos_url_text(apikey: Seq<char>, ids: Seq<Seq<char>>) -> Seq<char> {
    "https://www.googleapis.com/youtube/v3/videos?part=id,snippet,liveStreamingDetails&key="@
        + apikey + "&id="@ + join(ids, ","@)
}

/// The broadcast that an item of the API's list stands for, if it stands
/// for one.
pub open spec fn broadcast(item: VideoItem) -> Option<YoutubeVideo> {
    match item.scheduled_time {
        Some(scheduled_time) => Some(
            YoutubeVideo {
                id: item.id,
                channel_id: item.channel_id,
                title: item.title,
                scheduled_time,
                start_time: item.start_time,
                end_time: item.end_time,
            },
        ),
        None => None,
    }
}

/// The broadcasts among the items of the API's list, in its order.
pub open spec fn broadcasts(items: Seq<VideoItem>) -> Seq<YoutubeVideo>
    decreases items.len(),
{
    if items.len() == 0 {
        Seq::empty()
    } else {
        match broadcast(items.last()) {
            Some(video) => broadcasts(items.drop_last()).push(video),
            None => broadcasts(items.drop_last()),
        }
    }
}

/// The address to ask for a channel's feed.
pub fn feed_url(channel_id: &str) -> (url: String)
    ensures
        url@ == feed_url_text(channel_id@),
{
    let mut url = String::from_str("https://www.youtube.com/feeds/videos.xml?channel_id=");
    url.append(channel_id);
    url
}

/// The address to ask for the videos with these ids.
pub fn videos_url(apikey: &str, ids: &Vec<String>) -> (url: String)
    ensures
        url@ == videos_url_text(apikey@, texts(ids@)),
{
    let mut url = String::from_str(
        "https://www.googleapis.com/youtube/v3/videos?part=id,snippet,liveStreamingDetails&key=",
    );
    url.append(apikey);
    url.append("&id=");
    url.append(join_text(ids, ",").as_str());
    url
}

/// Reads the answer to a request for videos: the status, and the items that
/// the body lists, if it lists any. Anything but status 200 is an error.
/// Otherwise the broadcasts among the items are the answer, in their order;
/// an item that was never scheduled is none.
pub fn videos_from_response(status: u16, items: Option<Vec<VideoItem>>) -> (r: Result<
    Vec<YoutubeVideo>,
    GatewayError,
>)
    ensures
        status != 200 ==> r == Err::<Vec<YoutubeVideo>, GatewayError>(GatewayError::Status(status)),
        status == 200 ==> r is Ok && r->Ok_0@ == (match items {
            Some(list) => broadcasts(list@),
            None => Seq::empty(),
        }),
{
    if status != 200 {
        return Err(GatewayError::Status(status));
    }
    let mut videos: Vec<YoutubeVideo> = Vec::new();
    match items {
        Some(list) => {
            let mut i: usize = 0;
            assert(list@.take(0) =~= Seq::<VideoItem>::empty());
            while i < list.len()
                invariant
                    i <= list.len(),
                    videos@ == broadcasts(list@.take(i as int)),
                decreases list.len() - i,
            {
                let item = &list[i];
                proof {
                    assert(list@.take(i + 1).drop_last() =~= list@.take(i as int));
                    assert(list@.take(i + 1).last() == *item);
                }
                match &item.scheduled_time {
                    Some(scheduled_time) => {
                        videos.push(
                            YoutubeVideo {
                                id: item.id.clone(),
                                channel_id: item.channel_id.clone(),
                                title: item.title.clone(),
                                scheduled_time: scheduled_time.clone(),
                                start_time: clone_opt(&item.start_time),
                                end_time: clone_opt(&item.end_time),
                            },
                        );
                    },
                    None => {},
                }
                i += 1;
            }
            assert(list@.take(list.len() as int) =~= list@);
        },
        None => {},
    }
    Ok(videos)
}

} // verus!
