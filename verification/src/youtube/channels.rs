//! Asking upstream about one channel.

use vstd::prelude::*;
use vstd::string::*;
use crate::youtube::{GatewayError, YoutubeChannel};

verus! {

/// The address that answers for one channel's metadata.
pub open spec fn channel_url_text(apikey: Seq<char>, channel_id: Seq<char>) -> Seq<char> {
    "https://www.googleapis.com/youtube/v3/channels?part=id,snippet&key="@ + apikey + "&id="@
        + channel_id
}

/// The address to ask for one channel's metadata.
pub fn channel_url(apikey: &str, channel_id: &str) -> (url: String)
    ensures
        url@ == channel_url_text(apikey@, channel_id@),
{
    let mut url = String::from_str("https://www.googleapis.com/youtube/v3/channels?part=id,snippet&key=");
    url.append(apikey);
    url.append("&id=");
    url.append(channel_id);
    url
}

/// Reads the answer to a request for one channel's metadata: the status,
/// and the channels that the body lists, if it lists any. Anything but
/// status 200 is an error; so is an answer without a channel. Otherwise the
/// first channel listed is the one.
pub fn channel_from_response(status: u16, items: Option<Vec<YoutubeChannel>>) -> (r: Result<
    YoutubeChannel,
    GatewayError,
>)
    ensures
        status != 200 ==> r == Err::<YoutubeChannel, GatewayError>(GatewayError::Status(status)),
        status == 200 && (items is None || items->0.len() == 0) ==> r == Err::<
            YoutubeChannel,
            GatewayError,
        >(GatewayError::NotFound),
        status == 200 && items is Some && items->0.len() > 0 ==> r == Ok::<
            YoutubeChannel,
            GatewayError,
        >(items->0[0]),
{
    if status != 200 {
        return Err(GatewayError::Status(status));
    }
    match items {
        Some(list) => {
            if list.len() == 0 {
                Err(GatewayError::NotFound)
            } else {
                Ok(list[0].clone())
            }
        },
        None => Err(GatewayError::NotFound),
    }
}

} // verus!
