//! The channel and video tables.
//!
//! A `Store` holds the rows of both tables as plain values; its view is the
//! pair of maps from primary key to row. Writes are whole batches: a call
//! either applies all of its rows or is not made. Whoever persists the tables
//! writes the same batches to disk.

use vstd::prelude::*;
use crate::api::{ChannelRow, DbChannel, DbVideo, VideoRow, channel_ids, channel_rows, opt_text, texts, video_ids, video_rows};
use crate::table::{lemma_table_entry, lemma_table_position, lemma_table_push, lemma_table_remove, lemma_table_update, table};
use crate::text::{lemma_lex_le_refl, lemma_lex_le_total, lemma_lex_le_trans, lex_le, text_le};

verus! {

/// The most rows that a listing of videos returns.
pub const LISTING_CAP: usize = 10;

/// The two tables as maps from primary key to row.
pub struct Tables {
    pub channels: Map<Seq<char>, ChannelRow>,
    pub videos: Map<Seq<char>, VideoRow>,
}

/// The channel and video tables.
pub struct Store {
    channels: Vec<DbChannel>,
    videos: Vec<DbVideo>,
}

/// A video row as the table keeps it: the channel's name is not a column of
/// the video table.
pub open spec fn stored(row: VideoRow) -> VideoRow {
    VideoRow { channel_name: None, ..row }
}

/// The video table after the rows of a batch were written in order, each
/// replacing what the table held under its id.
pub open spec fn upsert_all(videos: Map<Seq<char>, VideoRow>, batch: Seq<VideoRow>) -> Map<
    Seq<char>,
    VideoRow,
>
    decreases batch.len(),
{
    if batch.len() == 0 {
        videos
    } else {
        upsert_all(videos, batch.drop_last()).insert(batch.last().id, stored(batch.last()))
    }
}

/// A channel takes part in listings and synchronisation.
pub open spec fn is_active(tables: Tables, id: Seq<char>) -> bool {
    tables.channels.dom().contains(id) && tables.channels[id].disabled == 0
}

/// `out` lists the active channels: each of them once, as the table holds
/// it, and nothing else. The order is left open.
pub open spec fn lists_active_channels(tables: Tables, out: Seq<ChannelRow>) -> bool {
    &&& forall|i: int|
        0 <= i < out.len() ==> is_active(tables, (#[trigger] out[i]).id) && tables.channels[out[i].id]
            == out[i]
    &&& forall|i: int, j: int| 0 <= i < j < out.len() ==> (#[trigger] out[i]).id != (#[trigger] out[j]).id
    &&& forall|id: Seq<char>|
        #[trigger] is_active(tables, id) ==> exists|i: int| 0 <= i < out.len() && (#[trigger] out[i]).id == id
}

/// The video under `id` has not ended, belongs to the selected channel where
/// one is selected, and its channel is in the channel table.
pub open spec fn is_upcoming(tables: Tables, selected: Option<Seq<char>>, id: Seq<char>) -> bool {
    &&& tables.videos.dom().contains(id)
    &&& tables.videos[id].end_time is None
    &&& (selected matches Some(c) ==> tables.videos[id].channel_id == c)
    &&& tables.channels.dom().contains(tables.videos[id].channel_id)
}

/// The video under `id`, with the name of its channel joined in.
pub open spec fn joined(tables: Tables, id: Seq<char>) -> VideoRow {
    VideoRow {
        channel_name: Some(tables.channels[tables.videos[id].channel_id].name),
        ..tables.videos[id]
    }
}

/// `out` holds no id twice.
pub open spec fn distinct_ids(out: Seq<VideoRow>) -> bool {
    forall|i: int, j: int| 0 <= i < j < out.len() ==> (#[trigger] out[i]).id != (#[trigger] out[j]).id
}

/// `out` is in non-decreasing order of scheduled time.
pub open spec fn by_scheduled_time(out: Seq<VideoRow>) -> bool {
    forall|i: int, j: int|
        0 <= i <= j < out.len() ==> lex_le(
            (#[trigger] out[i]).scheduled_time,
            (#[trigger] out[j]).scheduled_time,
        )
}

/// `out` holds a row with this id.
pub open spec fn lists_id(out: Seq<VideoRow>, id: Seq<char>) -> bool {
    exists|i: int| 0 <= i < out.len() && (#[trigger] out[i]).id == id
}

/// `out` is a listing of the soonest upcoming videos: at most `LISTING_CAP`
/// rows, each an upcoming video joined with its channel, none twice, in
/// order of scheduled time; and a video is left out only when the listing is
/// full and the video is scheduled no sooner than every row listed. Which of
/// several videos with one scheduled time comes first is left open.
pub open spec fn lists_upcoming(tables: Tables, selected: Option<Seq<char>>, out: Seq<VideoRow>) -> bool {
    &&& out.len() <= LISTING_CAP
    &&& forall|i: int|
        0 <= i < out.len() ==> is_upcoming(tables, selected, (#[trigger] out[i]).id) && out[i]
            == joined(tables, out[i].id)
    &&& distinct_ids(out)
    &&& by_scheduled_time(out)
    &&& forall|id: Seq<char>|
        #[trigger] is_upcoming(tables, selected, id) && !lists_id(out, id) ==> out.len()
            == LISTING_CAP && forall|i: int|
            0 <= i < out.len() ==> lex_le(
                (#[trigger] out[i]).scheduled_time,
                tables.videos[id].scheduled_time,
            )
}

impl View for Store {
    type V = Tables;

    closed spec fn view(&self) -> Tables {
        Tables {
            channels: table(channel_ids(self.channels@), channel_rows(self.channels@)),
            videos: table(video_ids(self.videos@), video_rows(self.videos@)),
        }
    }
}

impl Store {
    /// No id occurs twice in a table, and no stored video carries a channel
    /// name.
    pub closed spec fn wf(&self) -> bool {
        &&& channel_ids(self.channels@).no_duplicates()
        &&& video_ids(self.videos@).no_duplicates()
        &&& forall|i: int| 0 <= i < self.videos.len() ==> (#[trigger] self.videos[i]).channel_name is None
    }

    /// Row `i` of the video table passes the filter of a listing.
    spec fn candidate(&self, selected: Option<Seq<char>>, i: int) -> bool {
        &&& self.videos[i].end_time is None
        &&& (selected matches Some(c) ==> self.videos[i].channel_id@ == c)
        &&& channel_ids(self.channels@).contains(self.videos[i].channel_id@)
    }

    /// The scheduled time of row `i` of the video table.
    spec fn time(&self, i: int) -> Seq<char> {
        self.videos[i].scheduled_time@
    }

    /// The view holds each stored video under its id.
    proof fn lemma_video_at(&self, i: int)
        requires
            self.wf(),
            0 <= i < self.videos.len(),
        ensures
            self@.videos.dom().contains(self.videos[i].id@),
            self@.videos[self.videos[i].id@] == self.videos[i]@,
    {
        lemma_table_entry(video_ids(self.videos@), video_rows(self.videos@), i);
    }

    /// The view holds each stored channel under its id.
    proof fn lemma_channel_at(&self, j: int)
        requires
            self.wf(),
            0 <= j < self.channels.len(),
        ensures
            self@.channels.dom().contains(self.channels[j].id@),
            self@.channels[self.channels[j].id@] == self.channels[j]@,
    {
        lemma_table_entry(channel_ids(self.channels@), channel_rows(self.channels@), j);
    }

    /// The position of the channel with this id.
    fn find_channel(&self, id: &String) -> (r: Option<usize>)
        ensures
            r matches Some(j) ==> j < self.channels.len() && self.channels[j as int].id@ == id@,
            r is None ==> !channel_ids(self.channels@).contains(id@),
    {
        let mut j: usize = 0;
        while j < self.channels.len()
            invariant
                j <= self.channels.len(),
                forall|k: int| 0 <= k < j ==> (#[trigger] self.channels[k]).id@ != id@,
            decreases self.channels.len() - j,
        {
            if self.channels[j].id == *id {
                return Some(j);
            }
            j += 1;
        }
        None
    }

    /// The position of the video with this id.
    fn find_video(&self, id: &String) -> (r: Option<usize>)
        ensures
            r matches Some(i) ==> i < self.videos.len() && self.videos[i as int].id@ == id@,
            r is None ==> !video_ids(self.videos@).contains(id@),
    {
        let mut i: usize = 0;
        while i < self.videos.len()
            invariant
                i <= self.videos.len(),
                forall|k: int| 0 <= k < i ==> (#[trigger] self.videos[k]).id@ != id@,
            decreases self.videos.len() - i,
        {
            if self.videos[i].id == *id {
                return Some(i);
            }
            i += 1;
        }
        None
    }

    /// Writes one video row, replacing the row with the same id if there is
    /// one.
    fn put_video(&mut self, video: DbVideo)
        requires
            old(self).wf(),
        ensures
            final(self).wf(),
            final(self)@.channels == old(self)@.channels,
            final(self)@.videos == old(self)@.videos.insert(video@.id, stored(video@)),
    {
        let mut row = video;
        row.channel_name = None;
        let ghost keys = video_ids(self.videos@);
        let ghost vals = video_rows(self.videos@);
        match self.find_video(&row.id) {
            Some(i) => {
                proof {
                    lemma_table_update(keys, vals, i as int, row@);
                }
                self.videos.set(i, row);
                assert(video_ids(self.videos@) =~= keys);
                assert(video_rows(self.videos@) =~= vals.update(i as int, row@));
            },
            None => {
                proof {
                    lemma_table_push(keys, vals, row@.id, row@);
                }
                self.videos.push(row);
                assert(video_ids(self.videos@) =~= keys.push(row@.id));
                assert(video_rows(self.videos@) =~= vals.push(row@));
            },
        }
    }

    /// Deletes the video row with this id, if there is one.
    fn drop_video(&mut self, id: &String)
        requires
            old(self).wf(),
        ensures
            final(self).wf(),
            final(self)@.channels == old(self)@.channels,
            final(self)@.videos == old(self)@.videos.remove(id@),
    {
        let ghost keys = video_ids(self.videos@);
        let ghost vals = video_rows(self.videos@);
        match self.find_video(id) {
            Some(i) => {
                proof {
                    lemma_table_remove(keys, vals, i as int);
                }
                let _ = self.videos.remove(i);
                assert(video_ids(self.videos@) =~= keys.remove(i as int));
                assert(video_rows(self.videos@) =~= vals.remove(i as int));
            },
            None => {
                assert(self@.videos.remove(id@) =~= self@.videos);
            },
        }
    }
}

/// Creates both tables, empty.
pub fn init_db() -> (store: Store)
    ensures
        store.wf(),
        store@.channels == Map::<Seq<char>, ChannelRow>::empty(),
        store@.videos == Map::<Seq<char>, VideoRow>::empty(),
{
    let store = Store { channels: Vec::new(), videos: Vec::new() };
    assert(store@.channels =~= Map::<Seq<char>, ChannelRow>::empty());
    assert(store@.videos =~= Map::<Seq<char>, VideoRow>::empty());
    store
}

/// The channels that are not disabled.
pub fn get_db_channels(store: &Store) -> (out: Vec<DbChannel>)
    requires
        store.wf(),
    ensures
        lists_active_channels(store@, channel_rows(out@)),
{
    let mut out: Vec<DbChannel> = Vec::new();
    let ghost mut from: Seq<int> = Seq::empty();
    let mut j: usize = 0;
    while j < store.channels.len()
        invariant
            store.wf(),
            j <= store.channels.len(),
            from.len() == out.len(),
            forall|a: int|
                0 <= a < out.len() ==> 0 <= #[trigger] from[a] < j && out[a]@ == store.channels[from[a]]@
                    && out[a].disabled == 0,
            forall|a: int, b: int| 0 <= a < b < out.len() ==> #[trigger] from[a] < #[trigger] from[b],
            forall|k: int|
                0 <= k < j && (#[trigger] store.channels[k]).disabled == 0 ==> exists|a: int|
                    0 <= a < out.len() && #[trigger] from[a] == k,
        decreases store.channels.len() - j,
    {
        if store.channels[j].disabled == 0 {
            let ghost before = from;
            out.push(store.channels[j].clone());
            proof {
                from = from.push(j as int);
                assert forall|k: int|
                    0 <= k < j + 1 && (#[trigger] store.channels[k]).disabled == 0 implies exists|a: int|
                    0 <= a < out.len() && #[trigger] from[a] == k by {
                    if k < j {
                        let a = choose|a: int| 0 <= a < before.len() && #[trigger] before[a] == k;
                        assert(from[a] == k);
                    } else {
                        assert(from[out.len() - 1] == k);
                    }
                }
            }
        }
        j += 1;
    }
    proof {
        let rows = channel_rows(out@);
        let keys = channel_ids(store.channels@);
        assert forall|i: int| 0 <= i < rows.len() implies is_active(store@, (#[trigger] rows[i]).id)
            && store@.channels[rows[i].id] == rows[i] by {
            store.lemma_channel_at(from[i]);
        }
        assert forall|a: int, b: int| 0 <= a < b < rows.len() implies (#[trigger] rows[a]).id != (
        #[trigger] rows[b]).id by {
            assert(from[a] < from[b]);
            assert(keys[from[a]] != keys[from[b]]);
        }
        assert forall|id: Seq<char>| #[trigger] is_active(store@, id) implies exists|i: int|
            0 <= i < rows.len() && (#[trigger] rows[i]).id == id by {
            let k = lemma_table_position(keys, channel_rows(store.channels@), id);
            assert(store.channels[k].disabled == 0);
            let a = choose|a: int| 0 <= a < out.len() && #[trigger] from[a] == k;
            assert(rows[a].id == id);
        }
    }
    out
}

/// Whether the channel table holds a row with this id, disabled or not.
pub fn has_db_channel(store: &Store, id: &String) -> (r: bool)
    requires
        store.wf(),
    ensures
        r == store@.channels.dom().contains(id@),
{
    match store.find_channel(id) {
        Some(j) => {
            assert(channel_ids(store.channels@)[j as int] == id@);
            true
        },
        None => false,
    }
}

/// Writes one channel row, replacing the row with the same id if there is
/// one.
pub fn upsert_db_channel(store: &mut Store, channel: DbChannel)
    requires
        old(store).wf(),
    ensures
        final(store).wf(),
        final(store)@.channels == old(store)@.channels.insert(channel@.id, channel@),
        final(store)@.videos == old(store)@.videos,
{
    let ghost keys = channel_ids(store.channels@);
    let ghost vals = channel_rows(store.channels@);
    match store.find_channel(&channel.id) {
        Some(j) => {
            proof {
                lemma_table_update(keys, vals, j as int, channel@);
            }
            store.channels.set(j, channel);
            assert(channel_ids(store.channels@) =~= keys);
            assert(channel_rows(store.channels@) =~= vals.update(j as int, channel@));
        },
        None => {
            proof {
                lemma_table_push(keys, vals, channel@.id, channel@);
            }
            store.channels.push(channel);
            assert(channel_ids(store.channels@) =~= keys.push(channel@.id));
            assert(channel_rows(store.channels@) =~= vals.push(channel@));
        },
    }
}

/// The soonest upcoming videos, of one channel or of all: the videos that
/// have not ended and whose channel is known, in order of scheduled time, the
/// first `LISTING_CAP` of them.
pub fn get_db_upcoming_videos(store: &Store, channel_id: &Option<String>) -> (out: Vec<DbVideo>)
    requires
        store.wf(),
    ensures
        lists_upcoming(store@, opt_text(*channel_id), video_rows(out@)),
{
    let ghost selected = opt_text(*channel_id);
    // The rows that pass the filter, each with the position of its channel.
    let mut rest: Vec<(usize, usize)> = Vec::new();
    let mut i: usize = 0;
    while i < store.videos.len()
        invariant
            store.wf(),
            selected == opt_text(*channel_id),
            i <= store.videos.len(),
            forall|c: int|
                0 <= c < rest.len() ==> (#[trigger] rest[c]).0 < i && store.candidate(
                    selected,
                    rest[c].0 as int,
                ) && rest[c].1 < store.channels.len() && store.channels[rest[c].1 as int].id@
                    == store.videos[rest[c].0 as int].channel_id@,
            forall|c: int, d: int|
                0 <= c < d < rest.len() ==> (#[trigger] rest[c]).0 != (#[trigger] rest[d]).0,
            forall|k: int|
                0 <= k < i && #[trigger] store.candidate(selected, k) ==> exists|c: int|
                    0 <= c < rest.len() && (#[trigger] rest[c]).0 == k,
        decreases store.videos.len() - i,
    {
        let video = &store.videos[i];
        let wanted = match channel_id {
            Some(c) => video.channel_id == *c,
            None => true,
        };
        if video.end_time.is_none() && wanted {
            match store.find_channel(&video.channel_id) {
                Some(j) => {
                    let ghost before = rest@;
                    rest.push((i, j));
                    proof {
                        assert(channel_ids(store.channels@)[j as int] == video.channel_id@);
                        assert forall|k: int|
                            0 <= k < i + 1 && #[trigger] store.candidate(selected, k) implies exists|
                            c: int,
                        | 0 <= c < rest.len() && (#[trigger] rest[c]).0 == k by {
                            if k < i {
                                let c = choose|c: int|
                                    0 <= c < before.len() && (#[trigger] before[c]).0 == k;
                                assert(rest[c].0 == k);
                            } else {
                                assert(rest[rest.len() - 1].0 == k);
                            }
                        }
                    }
                },
                None => {},
            }
        }
        i += 1;
    }
    // Move the soonest of the rest to the listing until it is full.
    let mut picked: Vec<(usize, usize)> = Vec::new();
    while picked.len() < LISTING_CAP && rest.len() > 0
        invariant
            store.wf(),
            picked.len() <= LISTING_CAP,
            forall|c: int|
                0 <= c < rest.len() ==> (#[trigger] rest[c]).0 < store.videos.len() && store.candidate(
                    selected,
                    rest[c].0 as int,
                ) && rest[c].1 < store.channels.len() && store.channels[rest[c].1 as int].id@
                    == store.videos[rest[c].0 as int].channel_id@,
            forall|a: int|
                0 <= a < picked.len() ==> (#[trigger] picked[a]).0 < store.videos.len()
                    && store.candidate(selected, picked[a].0 as int) && picked[a].1
                    < store.channels.len() && store.channels[picked[a].1 as int].id@
                    == store.videos[picked[a].0 as int].channel_id@,
            forall|c: int, d: int|
                0 <= c < d < rest.len() ==> (#[trigger] rest[c]).0 != (#[trigger] rest[d]).0,
            forall|a: int, b: int|
                0 <= a < b < picked.len() ==> (#[trigger] picked[a]).0 != (#[trigger] picked[b]).0,
            forall|a: int, b: int|
                0 <= a <= b < picked.len() ==> lex_le(
                    store.time((#[trigger] picked[a]).0 as int),
                    store.time((#[trigger] picked[b]).0 as int),
                ),
            forall|a: int, c: int|
                0 <= a < picked.len() && 0 <= c < rest.len() ==> (#[trigger] picked[a]).0 != (
                #[trigger] rest[c]).0 && lex_le(
                    store.time(picked[a].0 as int),
                    store.time(rest[c].0 as int),
                ),
            forall|k: int|
                0 <= k < store.videos.len() && #[trigger] store.candidate(selected, k) ==> (exists|
                    c: int,
                | 0 <= c < rest.len() && (#[trigger] rest[c]).0 == k) || (exists|a: int|
                    0 <= a < picked.len() && (#[trigger] picked[a]).0 == k),
        decreases rest.len(),
    {
        let mut m: usize = 0;
        let mut c: usize = 1;
        proof {
            lemma_lex_le_refl(store.time(rest[0].0 as int));
        }
        while c < rest.len()
            invariant
                m < c <= rest.len(),
                forall|d: int| 0 <= d < rest.len() ==> (#[trigger] rest[d]).0 < store.videos.len(),
                forall|d: int|
                    0 <= d < c ==> lex_le(
                        store.time(rest[m as int].0 as int),
                        store.time((#[trigger] rest[d]).0 as int),
                    ),
            decreases rest.len() - c,
        {
            let soonest = &store.videos[rest[m].0].scheduled_time;
            let other = &store.videos[rest[c].0].scheduled_time;
            if !text_le(soonest.as_str(), other.as_str()) {
                proof {
                    lemma_lex_le_total(soonest@, other@);
                    lemma_lex_le_refl(other@);
                    assert forall|d: int| 0 <= d < c implies lex_le(
                        other@,
                        store.time((#[trigger] rest[d]).0 as int),
                    ) by {
                        lemma_lex_le_trans(other@, soonest@, store.time(rest[d].0 as int));
                    }
                }
                m = c;
            }
            c += 1;
        }
        let ghost rest0 = rest@;
        let ghost picked0 = picked@;
        let next = rest.remove(m);
        picked.push(next);
        proof {
            assert forall|d: int| 0 <= d < rest.len() implies #[trigger] rest[d] == rest0[if d < m {
                d
            } else {
                d + 1
            }] by {}
            assert forall|a: int, b: int| 0 <= a <= b < picked.len() implies lex_le(
                store.time((#[trigger] picked[a]).0 as int),
                store.time((#[trigger] picked[b]).0 as int),
            ) by {
                if b == picked0.len() {
                    if a == b {
                        lemma_lex_le_refl(store.time(next.0 as int));
                    } else {
                        assert(picked[a] == picked0[a]);
                        assert(next == rest0[m as int]);
                    }
                } else {
                    assert(picked[a] == picked0[a] && picked[b] == picked0[b]);
                }
            }
            assert forall|a: int, d: int| 0 <= a < picked.len() && 0 <= d < rest.len() implies (
            #[trigger] picked[a]).0 != (#[trigger] rest[d]).0 && lex_le(
                store.time(picked[a].0 as int),
                store.time(rest[d].0 as int),
            ) by {
                let d0 = if d < m { d } else { d + 1 };
                assert(rest[d] == rest0[d0]);
                if a < picked0.len() {
                    assert(picked[a] == picked0[a]);
                } else {
                    assert(picked[a] == rest0[m as int]);
                }
            }
            assert forall|k: int|
                0 <= k < store.videos.len() && #[trigger] store.candidate(selected, k) implies (
            exists|c: int| 0 <= c < rest.len() && (#[trigger] rest[c]).0 == k) || (exists|a: int|
                0 <= a < picked.len() && (#[trigger] picked[a]).0 == k) by {
                if exists|c: int| 0 <= c < rest0.len() && (#[trigger] rest0[c]).0 == k {
                    let c0 = choose|c: int| 0 <= c < rest0.len() && (#[trigger] rest0[c]).0 == k;
                    if c0 == m {
                        assert(picked[picked.len() - 1].0 == k);
                    } else {
                        let d = if c0 < m { c0 } else { c0 - 1 };
                        assert(rest[d] == rest0[c0]);
                    }
                } else {
                    let a = choose|a: int| 0 <= a < picked0.len() && (#[trigger] picked0[a]).0 == k;
                    assert(picked[a] == picked0[a]);
                }
            }
        }
    }
    // Join each listed row with the name of its channel.
    let mut out: Vec<DbVideo> = Vec::new();
    let mut a: usize = 0;
    while a < picked.len()
        invariant
            store.wf(),
            a <= picked.len(),
            out.len() == a,
            forall|b: int|
                0 <= b < picked.len() ==> (#[trigger] picked[b]).0 < store.videos.len() && picked[b].1
                    < store.channels.len(),
            forall|b: int|
                0 <= b < a ==> (#[trigger] out[b])@ == (VideoRow {
                    channel_name: Some(store.channels[picked[b].1 as int].name@),
                    ..store.videos[picked[b].0 as int]@
                }),
        decreases picked.len() - a,
    {
        let (i, j) = picked[a];
        let mut row = store.videos[i].clone();
        row.channel_name = Some(store.channels[j].name.clone());
        out.push(row);
        a += 1;
    }
    proof {
        let rows = video_rows(out@);
        let tables = store@;
        let keys = video_ids(store.videos@);
        assert forall|b: int| 0 <= b < rows.len() implies is_upcoming(
            tables,
            selected,
            (#[trigger] rows[b]).id,
        ) && rows[b] == joined(tables, rows[b].id) by {
            store.lemma_video_at(picked[b].0 as int);
            store.lemma_channel_at(picked[b].1 as int);
            assert(rows[b] == out[b]@);
        }
        assert forall|b: int, d: int| 0 <= b < d < rows.len() implies (#[trigger] rows[b]).id != (
        #[trigger] rows[d]).id by {
            assert(picked[b].0 != picked[d].0);
            assert(keys[picked[b].0 as int] != keys[picked[d].0 as int]);
        }
        assert forall|b: int, d: int| 0 <= b <= d < rows.len() implies lex_le(
            (#[trigger] rows[b]).scheduled_time,
            (#[trigger] rows[d]).scheduled_time,
        ) by {
            assert(lex_le(store.time(picked[b].0 as int), store.time(picked[d].0 as int)));
        }
        assert forall|id: Seq<char>|
            #[trigger] is_upcoming(tables, selected, id) && !lists_id(rows, id) implies rows.len()
            == LISTING_CAP && forall|b: int|
            0 <= b < rows.len() ==> lex_le(
                (#[trigger] rows[b]).scheduled_time,
                tables.videos[id].scheduled_time,
            ) by {
            let k = lemma_table_position(keys, video_rows(store.videos@), id);
            let cid = store.videos[k].channel_id@;
            let j = lemma_table_position(
                channel_ids(store.channels@),
                channel_rows(store.channels@),
                cid,
            );
            assert(channel_ids(store.channels@)[j] == cid);
            assert(store.candidate(selected, k));
            if exists|b: int| 0 <= b < picked.len() && (#[trigger] picked[b]).0 == k {
                let b = choose|b: int| 0 <= b < picked.len() && (#[trigger] picked[b]).0 == k;
                assert(rows[b].id == id);
                assert(false);
            }
            let c = choose|c: int| 0 <= c < rest.len() && (#[trigger] rest[c]).0 == k;
            assert forall|b: int| 0 <= b < rows.len() implies lex_le(
                (#[trigger] rows[b]).scheduled_time,
                tables.videos[id].scheduled_time,
            ) by {
                assert(lex_le(store.time(picked[b].0 as int), store.time(rest[c].0 as int)));
            }
        }
    }
    out
}

/// Writes a batch of video rows in order, each replacing the row with the
/// same id if there is one.
pub fn upsert_db_videos(store: &mut Store, videos: Vec<DbVideo>)
    requires
        old(store).wf(),
    ensures
        final(store).wf(),
        final(store)@.channels == old(store)@.channels,
        final(store)@.videos == upsert_all(old(store)@.videos, video_rows(videos@)),
{
    let ghost batch = video_rows(videos@);
    let mut i: usize = 0;
    while i < videos.len()
        invariant
            store.wf(),
            i <= videos.len(),
            batch == video_rows(videos@),
            store@.channels == old(store)@.channels,
            store@.videos == upsert_all(old(store)@.videos, batch.take(i as int)),
        decreases videos.len() - i,
    {
        store.put_video(videos[i].clone());
        proof {
            assert(batch.take(i + 1).drop_last() =~= batch.take(i as int));
            assert(batch.take(i + 1).last() == videos[i as int]@);
        }
        i += 1;
    }
    assert(batch.take(videos.len() as int) =~= batch);
}

/// Deletes the video rows with the ids of a batch.
pub fn delete_db_videos(store: &mut Store, videos: &Vec<String>)
    requires
        old(store).wf(),
    ensures
        final(store).wf(),
        final(store)@.channels == old(store)@.channels,
        final(store)@.videos == old(store)@.videos.remove_keys(texts(videos@).to_set()),
{
    let ghost ids = texts(videos@);
    let mut i: usize = 0;
    assert(store@.videos =~= store@.videos.remove_keys(ids.take(0).to_set()));
    while i < videos.len()
        invariant
            store.wf(),
            i <= videos.len(),
            ids == texts(videos@),
            store@.channels == old(store)@.channels,
            store@.videos == old(store)@.videos.remove_keys(ids.take(i as int).to_set()),
        decreases videos.len() - i,
    {
        store.drop_video(&videos[i]);
        proof {
            let done = ids.take(i as int);
            let next = ids.take(i + 1);
            assert(next =~= done.push(ids[i as int]));
            assert forall|k: Seq<char>| next.to_set().contains(k) <==> (done.to_set().contains(k) || k
                == ids[i as int]) by {
                if done.contains(k) {
                    let a = done.index_of(k);
                    assert(next[a] == k);
                }
                if k == ids[i as int] {
                    assert(next[i as int] == k);
                }
                if next.contains(k) {
                    let a = next.index_of(k);
                    if a < i {
                        assert(done[a] == k);
                    }
                }
            }
            assert(store@.videos =~= old(store)@.videos.remove_keys(next.to_set()));
        }
        i += 1;
    }
    assert(ids.take(videos.len() as int) =~= ids);
}

} // verus!
