//! What upstream reports: channels and videos as the content API gives
//! them, and how they become rows.

pub mod channels;
pub mod videos;
pub mod xml;

use vstd::prelude::*;
use vstd::std_specs::convert::FromSpecImpl;
use vstd::string::*;
use crate::api::{DbChannel, DbVideo, clone_opt};

verus! {

/// A channel as upstream reports it.
#[derive(Debug, PartialEq, Eq)]
pub struct YoutubeChannel {
    pub id: String,
    pub name: String,
}

/// A video as upstream reports it.
#[derive(Debug, PartialEq, Eq)]
pub struct YoutubeVideo {
    pub id: String,
    pub channel_id: String,
    pub title: String,
    pub scheduled_time: String,
    pub start_time: Option<String>,
    pub end_time: Option<String>,
}

/// Why a call upstream gave no record.
#[derive(Debug, Clone, Copy, PartialEq, Eq, Structural)]
pub enum GatewayError {
    /// The request could not be sent, or the answer could not be read.
    Transport,
    /// Upstream answered with this status instead of 200.
    Status(u16),
    /// Upstream answered, and knows no such channel.
    NotFound,
}

impl Clone for YoutubeChannel {
    fn clone(&self) -> (r: Self)
        ensures
            r == *self,
    {
        YoutubeChannel { id: self.id.clone(), name: self.name.clone() }
    }
}

impl Clone for YoutubeVideo {
    fn clone(&self) -> (r: Self)
        ensures
            r == *self,
    {
        YoutubeVideo {
            id: self.id.clone(),
            channel_id: self.channel_id.clone(),
            title: self.title.clone(),
            scheduled_time: self.scheduled_time.clone(),
            start_time: clone_opt(&self.start_time),
            end_time: clone_opt(&self.end_time),
        }
    }
}

/// A video that upstream reports becomes a row without a channel name.
pub open spec fn row_of(val: YoutubeVideo) -> DbVideo {
    DbVideo {
        id: val.id,
        channel_id: val.channel_id,
        channel_name: None,
        title: val.title,
        scheduled_time: val.scheduled_time,
        start_time: val.start_time,
        end_time: val.end_time,
    }
}

impl FromSpecImpl<YoutubeChannel> for DbChannel {
    open spec fn obeys_from_spec() -> bool {
        true
    }

    /// A channel that upstream reports becomes an enabled row.
    open spec fn from_spec(val: YoutubeChannel) -> DbChannel {
        DbChannel { id: val.id, name: val.name, disabled: 0 }
    }
}

impl From<YoutubeChannel> for DbChannel {
    fn from(val: YoutubeChannel) -> (r: DbChannel) {
        DbChannel { id: val.id, name: val.name, disabled: 0 }
    }
}

impl<'a> FromSpecImpl<&'a YoutubeVideo> for DbVideo {
    open spec fn obeys_from_spec() -> bool {
        true
    }

    open spec fn from_spec(val: &'a YoutubeVideo) -> DbVideo {
        row_of(*val)
    }
}

impl<'a> From<&'a YoutubeVideo> for DbVideo {
    fn from(val: &'a YoutubeVideo) -> (r: DbVideo) {
        DbVideo {
            id: val.id.clone(),
            channel_id: val.channel_id.clone(),
            channel_name: None,
            title: val.title.clone(),
            scheduled_time: val.scheduled_time.clone(),
            start_time: clone_opt(&val.start_time),
            end_time: clone_opt(&val.end_time),
        }
    }
}

/// The ids of a list of reported videos, in its order.
pub open spec fn reported_ids(v: Seq<YoutubeVideo>) -> Seq<Seq<char>> {
    v.map_values(|x: YoutubeVideo| x.id@)
}

/// The rows that a list of reported videos becomes, in its order.
pub open spec fn reported_rows(v: Seq<YoutubeVideo>) -> Seq<DbVideo> {
    v.map_values(|x: YoutubeVideo| row_of(x))
}

} // verus!
