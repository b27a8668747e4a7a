//! The rows of the two tables, and what a row means.

use vstd::prelude::*;

verus! {

/// A tracked channel. `disabled` is zero for a channel that takes part in
/// listings and synchronisation.
#[derive(Debug, PartialEq, Eq)]
pub struct DbChannel {
    pub id: String,
    pub name: String,
    pub disabled: i32,
}

/// A broadcast of a channel. `channel_name` is filled in only by reads that
/// join the channel table; it is not stored with the video.
#[derive(Debug, PartialEq, Eq)]
pub struct DbVideo {
    pub id: String,
    pub channel_id: String,
    pub channel_name: Option<String>,
    pub title: String,
    pub scheduled_time: String,
    pub start_time: Option<String>,
    pub end_time: Option<String>,
}

/// What a `DbChannel` holds, as mathematical values.
pub struct ChannelRow {
    pub id: Seq<char>,
    pub name: Seq<char>,
    pub disabled: int,
}

/// What a `DbVideo` holds, as mathematical values.
pub struct VideoRow {
    pub id: Seq<char>,
    pub channel_id: Seq<char>,
    pub channel_name: Option<Seq<char>>,
    pub title: Seq<char>,
    pub scheduled_time: Seq<char>,
    pub start_time: Option<Seq<char>>,
    pub end_time: Option<Seq<char>>,
}

/// The lifecycle state of a video. It is derived from the two optional
/// timestamps and never stored.
#[derive(Debug, Clone, Copy, PartialEq, Eq, Structural)]
pub enum Lifecycle {
    Upcoming,
    Live,
    Ended,
}

/// The view of an optional string.
pub open spec fn opt_text(s: Option<String>) -> Option<Seq<char>> {
    match s {
        Some(t) => Some(t@),
        None => None,
    }
}

/// A copy of an optional string.
pub fn clone_opt(s: &Option<String>) -> (r: Option<String>)
    ensures
        r == *s,
{
    match s {
        Some(t) => Some(t.clone()),
        None => None,
    }
}

impl View for DbChannel {
    type V = ChannelRow;

    open spec fn view(&self) -> ChannelRow {
        ChannelRow { id: self.id@, name: self.name@, disabled: self.disabled as int }
    }
}

impl View for DbVideo {
    type V = VideoRow;

    open spec fn view(&self) -> VideoRow {
        VideoRow {
            id: self.id@,
            channel_id: self.channel_id@,
            channel_name: opt_text(self.channel_name),
            title: self.title@,
            scheduled_time: self.scheduled_time@,
            start_time: opt_text(self.start_time),
            end_time: opt_text(self.end_time),
        }
    }
}

impl Clone for DbChannel {
    fn clone(&self) -> (r: Self)
        ensures
            r == *self,
    {
        DbChannel { id: self.id.clone(), name: self.name.clone(), disabled: self.disabled }
    }
}

impl Clone for DbVideo {
    fn clone(&self) -> (r: Self)
        ensures
            r == *self,
    {
        DbVideo {
            id: self.id.clone(),
            channel_id: self.channel_id.clone(),
            channel_name: clone_opt(&self.channel_name),
            title: self.title.clone(),
            scheduled_time: self.scheduled_time.clone(),
            start_time: clone_opt(&self.start_time),
            end_time: clone_opt(&self.end_time),
        }
    }
}

/// A copy of a list of strings.
pub fn clone_texts(list: &Vec<String>) -> (r: Vec<String>)
    ensures
        r@ == list@,
{
    let mut r: Vec<String> = Vec::new();
    let mut i: usize = 0;
    while i < list.len()
        invariant
            i <= list.len(),
            r@ == list@.take(i as int),
        decreases list.len() - i,
    {
        r.push(list[i].clone());
        assert(list@.take(i + 1) =~= list@.take(i as int).push(list[i as int]));
        i += 1;
    }
    assert(list@.take(list.len() as int) =~= list@);
    r
}

/// A copy of a list of videos.
pub fn clone_videos(videos: &Vec<DbVideo>) -> (r: Vec<DbVideo>)
    ensures
        r@ == videos@,
{
    let mut r: Vec<DbVideo> = Vec::new();
    let mut i: usize = 0;
    while i < videos.len()
        invariant
            i <= videos.len(),
            r@ == videos@.take(i as int),
        decreases videos.len() - i,
    {
        r.push(videos[i].clone());
        assert(videos@.take(i + 1) =~= videos@.take(i as int).push(videos[i as int]));
        i += 1;
    }
    assert(videos@.take(videos.len() as int) =~= videos@);
    r
}

impl VideoRow {
    /// Ended once an end time is known, live once a start time is known,
    /// upcoming before that.
    pub open spec fn lifecycle(self) -> Lifecycle {
        if self.end_time is Some {
            Lifecycle::Ended
        } else if self.start_time is Some {
            Lifecycle::Live
        } else {
            Lifecycle::Upcoming
        }
    }
}

impl DbVideo {
    /// The lifecycle state that the two optional timestamps give.
    pub fn lifecycle(&self) -> (r: Lifecycle)
        ensures
            r == self@.lifecycle(),
    {
        if self.end_time.is_some() {
            Lifecycle::Ended
        } else if self.start_time.is_some() {
            Lifecycle::Live
        } else {
            Lifecycle::Upcoming
        }
    }
}

/// The views of a list of strings.
pub open spec fn texts(v: Seq<String>) -> Seq<Seq<char>> {
    v.map_values(|s: String| s@)
}

/// The views of a list of channels.
pub open spec fn channel_rows(v: Seq<DbChannel>) -> Seq<ChannelRow> {
    v.map_values(|c: DbChannel| c@)
}

/// The ids of a list of channels, in its order.
pub open spec fn channel_ids(v: Seq<DbChannel>) -> Seq<Seq<char>> {
    v.map_values(|c: DbChannel| c.id@)
}

/// The views of a list of videos.
pub open spec fn video_rows(v: Seq<DbVideo>) -> Seq<VideoRow> {
    v.map_values(|x: DbVideo| x@)
}

/// The ids of a list of videos, in its order.
pub open spec fn video_ids(v: Seq<DbVideo>) -> Seq<Seq<char>> {
    v.map_values(|x: DbVideo| x.id@)
}

} // verus!
