//! The jobs that reconcile the tables with what upstream reports.
//!
//! A job never talks to upstream itself. It says what to ask (`*_request`),
//! and, handed the answer, changes the tables and returns the batch that it
//! wrote, so that the caller can persist the same batch.

use vstd::prelude::*;
use vstd::string::*;
use crate::api::{ChannelRow, DbChannel, DbVideo, VideoRow, channel_rows, clone_texts, clone_videos, texts, video_rows};
use crate::config::{Config, tracked_ids};
use crate::pages::Pages;
use crate::sqlite::{Store, Tables, delete_db_videos, get_db_upcoming_videos, has_db_channel, lists_upcoming, stored, upsert_all, upsert_db_channel, upsert_db_videos};
use crate::youtube::{GatewayError, YoutubeChannel, YoutubeVideo, reported_ids, reported_rows, row_of};

verus! {

/// The three recurring jobs.
#[derive(Debug, Clone, Copy, PartialEq, Eq, Structural)]
pub enum Job {
    /// Looks for videos that the tables do not hold yet.
    Discovery,
    /// Brings the videos that have not ended up to date.
    Refresh,
    /// Brings the channels' metadata up to date.
    Metadata,
}

/// The seconds from one run of a job to the next.
pub open spec fn period(job: Job) -> nat {
    match job {
        Job::Discovery => 300,
        Job::Refresh => 900,
        Job::Metadata => 21600,
    }
}

/// When a job runs, as a cron expression with a field for seconds.
pub open spec fn cron_text(job: Job) -> Seq<char> {
    match job {
        Job::Discovery => "0 0/5 * * * *"@,
        Job::Refresh => "30 14,29,44,59 * * * *"@,
        Job::Metadata => "0 0 0/6 * * *"@,
    }
}

/// The kind of page whose cache is repopulated after a job: the videos
/// after a refresh, none after the other two.
pub open spec fn page_after(job: Job) -> Option<Pages> {
    match job {
        Job::Refresh => Some(Pages::Root),
        _ => None,
    }
}

/// Discovery runs more often than the refresh, and the refresh more often
/// than the update of the channels' metadata.
pub proof fn lemma_cadences()
    ensures
        period(Job::Discovery) < period(Job::Refresh) < period(Job::Metadata),
{
}

impl Job {
    /// When the job runs, as a cron expression with a field for seconds.
    pub fn cron(self) -> (r: &'static str)
        ensures
            r@ == cron_text(self),
    {
        match self {
            Job::Discovery => "0 0/5 * * * *",
            Job::Refresh => "30 14,29,44,59 * * * *",
            Job::Metadata => "0 0 0/6 * * *",
        }
    }

    /// The seconds from one run of the job to the next.
    pub fn period_seconds(self) -> (r: u32)
        ensures
            r == period(self),
    {
        match self {
            Job::Discovery => 300,
            Job::Refresh => 900,
            Job::Metadata => 21600,
        }
    }

    /// The kind of page whose cache is repopulated after the job.
    pub fn repopulates(self) -> (r: Option<Pages>)
        ensures
            r == page_after(self),
    {
        match self {
            Job::Refresh => Some(Pages::Root),
            _ => None,
        }
    }
}

/// What the refresh job does with an answer.
#[derive(Debug, Clone, Copy, PartialEq, Eq, Structural)]
pub enum RefreshOutcome {
    /// Upstream reports none of the videos asked about: all of them go.
    DeleteAll,
    /// Upstream reports as many videos as were asked about: all reported are
    /// written.
    UpsertAll,
    /// Upstream reports some other number: the videos it no longer reports
    /// go, the others are written as reported.
    Dangling,
}

/// A batch of writes to the video table.
pub struct Changes {
    pub upserts: Vec<DbVideo>,
    pub deletes: Vec<String>,
}

/// The outcome for the ids asked about and the ids reported. Only the two
/// counts matter.
pub open spec fn classify(requested: Seq<Seq<char>>, returned: Seq<Seq<char>>) -> RefreshOutcome {
    if returned.len() == 0 {
        RefreshOutcome::DeleteAll
    } else if returned.len() == requested.len() {
        RefreshOutcome::UpsertAll
    } else {
        RefreshOutcome::Dangling
    }
}

/// The ids asked about that were not reported, in the order asked.
pub open spec fn missing(requested: Seq<Seq<char>>, returned: Seq<Seq<char>>) -> Seq<Seq<char>> {
    requested.filter(|id: Seq<char>| !returned.contains(id))
}

/// The ids asked about that were reported, in the order asked.
pub open spec fn present(requested: Seq<Seq<char>>, returned: Seq<Seq<char>>) -> Seq<Seq<char>> {
    requested.filter(|id: Seq<char>| returned.contains(id))
}

/// The reported videos that were asked about, in the order reported.
pub open spec fn answered(requested: Seq<Seq<char>>, returned: Seq<YoutubeVideo>) -> Seq<
    YoutubeVideo,
> {
    returned.filter(|v: YoutubeVideo| requested.contains(v.id@))
}

/// The ids that the refresh job deletes.
pub open spec fn refresh_deletes(requested: Seq<Seq<char>>, returned: Seq<YoutubeVideo>) -> Seq<
    Seq<char>,
> {
    match classify(requested, reported_ids(returned)) {
        RefreshOutcome::DeleteAll => requested,
        RefreshOutcome::UpsertAll => Seq::empty(),
        RefreshOutcome::Dangling => missing(requested, reported_ids(returned)),
    }
}

/// The rows that the refresh job writes.
pub open spec fn refresh_upserts(requested: Seq<Seq<char>>, returned: Seq<YoutubeVideo>) -> Seq<
    DbVideo,
> {
    match classify(requested, reported_ids(returned)) {
        RefreshOutcome::DeleteAll => Seq::empty(),
        RefreshOutcome::UpsertAll => reported_rows(returned),
        RefreshOutcome::Dangling => reported_rows(answered(requested, returned)),
    }
}

/// The tables after the refresh job: as they were where nothing was asked
/// or the call upstream failed, and otherwise with the rows of the outcome
/// written and its ids deleted.
pub open spec fn after_refresh(
    tables: Tables,
    requested: Seq<Seq<char>>,
    response: Result<Vec<YoutubeVideo>, GatewayError>,
) -> Tables {
    match response {
        Ok(returned) => if requested.len() == 0 {
            tables
        } else {
            Tables {
                videos: upsert_all(
                    tables.videos,
                    video_rows(refresh_upserts(requested, returned@)),
                ).remove_keys(refresh_deletes(requested, returned@).to_set()),
                ..tables
            }
        },
        Err(_) => tables,
    }
}

/// The ids of the reported videos.
fn ids_of(returned: &Vec<YoutubeVideo>) -> (ids: Vec<String>)
    ensures
        texts(ids@) == reported_ids(returned@),
{
    let mut ids: Vec<String> = Vec::new();
    let mut i: usize = 0;
    while i < returned.len()
        invariant
            i <= returned.len(),
            ids.len() == i,
            forall|k: int| 0 <= k < i ==> (#[trigger] ids[k])@ == returned[k].id@,
        decreases returned.len() - i,
    {
        ids.push(returned[i].id.clone());
        i += 1;
    }
    assert(texts(ids@) =~= reported_ids(returned@));
    ids
}

/// Whether `id` is among `ids`.
pub fn contains_id(ids: &Vec<String>, id: &String) -> (r: bool)
    ensures
        r == texts(ids@).contains(id@),
{
    let mut i: usize = 0;
    while i < ids.len()
        invariant
            i <= ids.len(),
            forall|k: int| 0 <= k < i ==> (#[trigger] ids[k])@ != id@,
        decreases ids.len() - i,
    {
        if ids[i] == *id {
            assert(texts(ids@)[i as int] == id@);
            return true;
        }
        i += 1;
    }
    assert forall|k: int| 0 <= k < texts(ids@).len() implies (#[trigger] texts(ids@)[k]) != id@ by {
        assert(ids[k]@ != id@);
    }
    false
}

/// The outcome of the refresh job for the ids asked about and the videos
/// reported.
pub fn classify_refresh(requested: &Vec<String>, returned: &Vec<YoutubeVideo>) -> (r: RefreshOutcome)
    ensures
        r == classify(texts(requested@), reported_ids(returned@)),
{
    if returned.len() == 0 {
        RefreshOutcome::DeleteAll
    } else if returned.len() == requested.len() {
        RefreshOutcome::UpsertAll
    } else {
        RefreshOutcome::Dangling
    }
}

/// Splits the ids asked about into those that were not reported and those
/// that were, each in the order asked.
pub fn partition_ids(requested: &Vec<String>, returned: &Vec<String>) -> (r: (Vec<String>, Vec<String>))
    ensures
        texts(r.0@) == missing(texts(requested@), texts(returned@)),
        texts(r.1@) == present(texts(requested@), texts(returned@)),
{
    let ghost req = texts(requested@);
    let ghost ret = texts(returned@);
    let ghost gone = |id: Seq<char>| !ret.contains(id);
    let ghost kept = |id: Seq<char>| ret.contains(id);
    let mut out_missing: Vec<String> = Vec::new();
    let mut out_present: Vec<String> = Vec::new();
    let mut i: usize = 0;
    proof {
        reveal(Seq::filter);
        assert(req.take(0).filter(gone) =~= Seq::<Seq<char>>::empty());
        assert(req.take(0).filter(kept) =~= Seq::<Seq<char>>::empty());
        assert(texts(out_missing@) =~= Seq::<Seq<char>>::empty());
        assert(texts(out_present@) =~= Seq::<Seq<char>>::empty());
    }
    while i < requested.len()
        invariant
            i <= requested.len(),
            req == texts(requested@),
            ret == texts(returned@),
            gone == (|id: Seq<char>| !ret.contains(id)),
            kept == (|id: Seq<char>| ret.contains(id)),
            texts(out_missing@) == req.take(i as int).filter(gone),
            texts(out_present@) == req.take(i as int).filter(kept),
        decreases requested.len() - i,
    {
        let ghost missing_before = texts(out_missing@);
        let ghost present_before = texts(out_present@);
        let reported = contains_id(returned, &requested[i]);
        proof {
            assert(req.take(i + 1) =~= req.take(i as int).push(req[i as int]));
            req.take(i as int).lemma_filter_push(req[i as int], gone);
            req.take(i as int).lemma_filter_push(req[i as int], kept);
        }
        if reported {
            out_present.push(requested[i].clone());
            assert(texts(out_present@) =~= present_before.push(req[i as int]));
        } else {
            out_missing.push(requested[i].clone());
            assert(texts(out_missing@) =~= missing_before.push(req[i as int]));
        }
        i += 1;
    }
    assert(req.take(requested.len() as int) =~= req);
    (out_missing, out_present)
}

/// The reported videos that were asked about, as rows, in the order
/// reported.
fn answered_rows(requested: &Vec<String>, returned: &Vec<YoutubeVideo>) -> (rows: Vec<DbVideo>)
    ensures
        rows@ == reported_rows(answered(texts(requested@), returned@)),
{
    let ghost req = texts(requested@);
    let ghost asked = |v: YoutubeVideo| req.contains(v.id@);
    let mut rows: Vec<DbVideo> = Vec::new();
    let mut i: usize = 0;
    proof {
        reveal(Seq::filter);
        assert(returned@.take(0).filter(asked) =~= Seq::<YoutubeVideo>::empty());
        assert(rows@ =~= reported_rows(Seq::<YoutubeVideo>::empty()));
    }
    while i < returned.len()
        invariant
            i <= returned.len(),
            req == texts(requested@),
            asked == (|v: YoutubeVideo| req.contains(v.id@)),
            rows@ == reported_rows(returned@.take(i as int).filter(asked)),
        decreases returned.len() - i,
    {
        let ghost before = returned@.take(i as int).filter(asked);
        proof {
            assert(returned@.take(i + 1) =~= returned@.take(i as int).push(returned[i as int]));
            returned@.take(i as int).lemma_filter_push(returned[i as int], asked);
        }
        if contains_id(requested, &returned[i].id) {
            rows.push(DbVideo::from(&returned[i]));
            assert(rows@ =~= reported_rows(before.push(returned[i as int])));
        }
        i += 1;
    }
    assert(returned@.take(returned.len() as int) =~= returned@);
    rows
}

/// All reported videos as rows, in the order reported.
fn all_rows(returned: &Vec<YoutubeVideo>) -> (rows: Vec<DbVideo>)
    ensures
        rows@ == reported_rows(returned@),
{
    let mut rows: Vec<DbVideo> = Vec::new();
    let mut i: usize = 0;
    while i < returned.len()
        invariant
            i <= returned.len(),
            rows.len() == i,
            forall|k: int| 0 <= k < i ==> #[trigger] rows[k] == row_of(returned[k]),
        decreases returned.len() - i,
    {
        rows.push(DbVideo::from(&returned[i]));
        i += 1;
    }
    assert(rows@ =~= reported_rows(returned@));
    rows
}

/// The batch that the refresh job writes for the ids asked about and the
/// videos reported.
pub fn plan_refresh(requested: &Vec<String>, returned: &Vec<YoutubeVideo>) -> (changes: Changes)
    ensures
        changes.upserts@ == refresh_upserts(texts(requested@), returned@),
        texts(changes.deletes@) == refresh_deletes(texts(requested@), returned@),
{
    match classify_refresh(requested, returned) {
        RefreshOutcome::DeleteAll => Changes {
            upserts: Vec::new(),
            deletes: clone_texts(requested),
        },
        RefreshOutcome::UpsertAll => {
            let deletes: Vec<String> = Vec::new();
            assert(texts(deletes@) =~= Seq::<Seq<char>>::empty());
            Changes { upserts: all_rows(returned), deletes }
        },
        RefreshOutcome::Dangling => {
            let ids = ids_of(returned);
            let (gone, _) = partition_ids(requested, &ids);
            Changes { upserts: answered_rows(requested, returned), deletes: gone }
        },
    }
}

/// The ids that the refresh job asks upstream about: those of the soonest
/// upcoming videos of all channels, in the order of that listing. With none,
/// there is nothing to ask and nothing to do.
pub fn refresh_request(store: &Store) -> (ids: Vec<String>)
    requires
        store.wf(),
    ensures
        exists|listing: Seq<VideoRow>|
            lists_upcoming(store@, None, listing) && texts(ids@) == listing.map_values(
                |row: VideoRow| row.id,
            ),
{
    let listing = get_db_upcoming_videos(store, &None);
    let mut ids: Vec<String> = Vec::new();
    let mut i: usize = 0;
    while i < listing.len()
        invariant
            i <= listing.len(),
            ids.len() == i,
            forall|k: int| 0 <= k < i ==> (#[trigger] ids[k])@ == listing[k].id@,
        decreases listing.len() - i,
    {
        ids.push(listing[i].id.clone());
        i += 1;
    }
    assert(texts(ids@) =~= video_rows(listing@).map_values(|row: VideoRow| row.id));
    ids
}

/// The refresh job, handed the answer to its request. A failed call upstream
/// changes nothing, and neither does an empty request. Otherwise the batch
/// that the outcome calls for is written, and returned.
pub fn check_existing_videos(
    store: &mut Store,
    requested: &Vec<String>,
    response: &Result<Vec<YoutubeVideo>, GatewayError>,
) -> (changes: Changes)
    requires
        old(store).wf(),
    ensures
        final(store).wf(),
        final(store)@ == after_refresh(old(store)@, texts(requested@), *response),
        requested.len() == 0 || response is Err ==> changes.upserts@.len() == 0
            && changes.deletes@.len() == 0,
        requested.len() > 0 ==> (response matches Ok(returned) ==> changes.upserts@
            == refresh_upserts(texts(requested@), returned@) && texts(changes.deletes@)
            == refresh_deletes(texts(requested@), returned@)),
{
    match response {
        Ok(returned) => {
            if requested.len() == 0 {
                return Changes { upserts: Vec::new(), deletes: Vec::new() };
            }
            let changes = plan_refresh(requested, returned);
            upsert_db_videos(store, clone_videos(&changes.upserts));
            delete_db_videos(store, &changes.deletes);
            changes
        },
        Err(_) => Changes { upserts: Vec::new(), deletes: Vec::new() },
    }
}

/// A filtered sequence holds exactly the elements of the sequence that pass
/// the filter.
pub proof fn lemma_filter_members<A>(s: Seq<A>, pred: spec_fn(A) -> bool)
    ensures
        forall|x: A| #[trigger] s.filter(pred).contains(x) <==> s.contains(x) && pred(x),
    decreases s.len(),
{
    reveal(Seq::filter);
    if s.len() > 0 {
        let t = s.drop_last();
        lemma_filter_members(t, pred);
        assert forall|x: A| #[trigger] s.filter(pred).contains(x) <==> s.contains(x) && pred(x) by {
            let f = s.filter(pred);
            if f.contains(x) {
                let i = f.index_of(x);
                if pred(s.last()) && i == f.len() - 1 {
                    assert(s[s.len() - 1] == x);
                } else {
                    assert(t.filter(pred)[i] == x);
                    assert(t.filter(pred).contains(x));
                    let j = t.index_of(x);
                    assert(s[j] == x);
                }
            }
            if s.contains(x) && pred(x) {
                let j = s.index_of(x);
                if j == s.len() - 1 {
                    assert(f[f.len() - 1] == x);
                } else {
                    assert(t[j] == x);
                    assert(t.filter(pred).contains(x));
                    let i = t.filter(pred).index_of(x);
                    assert(f[i] == x);
                }
            }
        }
    }
}

/// The ids asked about split into the missing and the present: the missing
/// are the ids asked about without the ids reported, the present are the ids
/// both asked about and reported; together they are the ids asked about, and
/// no id is both.
pub proof fn lemma_dangling_partition(requested: Seq<Seq<char>>, returned: Seq<Seq<char>>)
    ensures
        missing(requested, returned).to_set() == requested.to_set().difference(returned.to_set()),
        present(requested, returned).to_set() == requested.to_set().intersect(returned.to_set()),
        missing(requested, returned).to_set().union(present(requested, returned).to_set())
            == requested.to_set(),
        missing(requested, returned).to_set().disjoint(present(requested, returned).to_set()),
{
    lemma_filter_members(requested, |id: Seq<char>| !returned.contains(id));
    lemma_filter_members(requested, |id: Seq<char>| returned.contains(id));
    let m = missing(requested, returned).to_set();
    let p = present(requested, returned).to_set();
    assert(m =~= requested.to_set().difference(returned.to_set()));
    assert(p =~= requested.to_set().intersect(returned.to_set()));
    assert(m.union(p) =~= requested.to_set());
}

/// The refresh job does not care in which order the ids were asked about or
/// reported: two requests with the same ids, and two answers with the same
/// ids, have the same outcome, the same missing ids and the same present
/// ids.
pub proof fn lemma_refresh_ignores_order(
    requested: Seq<Seq<char>>,
    returned: Seq<Seq<char>>,
    requested2: Seq<Seq<char>>,
    returned2: Seq<Seq<char>>,
)
    requires
        requested.to_multiset() == requested2.to_multiset(),
        returned.to_multiset() == returned2.to_multiset(),
    ensures
        classify(requested, returned) == classify(requested2, returned2),
        missing(requested, returned).to_set() == missing(requested2, returned2).to_set(),
        present(requested, returned).to_set() == present(requested2, returned2).to_set(),
{
    requested.to_multiset_ensures();
    requested2.to_multiset_ensures();
    returned.to_multiset_ensures();
    returned2.to_multiset_ensures();
    assert forall|x: Seq<char>| requested.contains(x) <==> requested2.contains(x) by {
        assert(requested.contains(x) <==> requested.to_multiset().count(x) > 0);
        assert(requested2.contains(x) <==> requested2.to_multiset().count(x) > 0);
    }
    assert forall|x: Seq<char>| returned.contains(x) <==> returned2.contains(x) by {
        assert(returned.contains(x) <==> returned.to_multiset().count(x) > 0);
        assert(returned2.contains(x) <==> returned2.to_multiset().count(x) > 0);
    }
    assert(requested.to_set() =~= requested2.to_set());
    assert(returned.to_set() =~= returned2.to_set());
    lemma_dangling_partition(requested, returned);
    lemma_dangling_partition(requested2, returned2);
}

/// The row that the last write of a batch under `id` leaves, if the batch
/// writes under `id` at all.
pub open spec fn last_write(batch: Seq<VideoRow>, id: Seq<char>) -> Option<VideoRow>
    decreases batch.len(),
{
    if batch.len() == 0 {
        None
    } else if batch.last().id == id {
        Some(stored(batch.last()))
    } else {
        last_write(batch.drop_last(), id)
    }
}

/// After a batch, the table holds under each id what the batch last wrote
/// there, and what it held before where the batch wrote nothing.
pub proof fn lemma_upsert_all(videos: Map<Seq<char>, VideoRow>, batch: Seq<VideoRow>)
    ensures
        forall|id: Seq<char>| #[trigger]
            upsert_all(videos, batch).dom().contains(id) <==> videos.dom().contains(id)
                || last_write(batch, id) is Some,
        forall|id: Seq<char>|
            last_write(batch, id) is Some ==> #[trigger] upsert_all(videos, batch)[id]
                == last_write(batch, id)->0,
        forall|id: Seq<char>|
            last_write(batch, id) is None && videos.dom().contains(id) ==> #[trigger] upsert_all(
                videos,
                batch,
            )[id] == videos[id],
    decreases batch.len(),
{
    if batch.len() > 0 {
        let rest = batch.drop_last();
        lemma_upsert_all(videos, rest);
        let last = batch.last();
        assert forall|id: Seq<char>| #[trigger]
            upsert_all(videos, batch).dom().contains(id) <==> videos.dom().contains(id)
                || last_write(batch, id) is Some by {
            if last.id != id {
                assert(upsert_all(videos, rest).dom().contains(id) <==> videos.dom().contains(id)
                    || last_write(rest, id) is Some);
            }
        }
        assert forall|id: Seq<char>|
            last_write(batch, id) is Some implies #[trigger] upsert_all(videos, batch)[id]
            == last_write(batch, id)->0 by {
            if last.id != id {
                assert(last_write(rest, id) is Some);
                assert(upsert_all(videos, rest).dom().contains(id));
            }
        }
        assert forall|id: Seq<char>|
            last_write(batch, id) is None && videos.dom().contains(id) implies #[trigger] upsert_all(
            videos,
            batch,
        )[id] == videos[id] by {
            assert(upsert_all(videos, rest).dom().contains(id));
        }
    }
}

/// Writing a batch a second time changes nothing.
pub proof fn lemma_upsert_all_twice(videos: Map<Seq<char>, VideoRow>, batch: Seq<VideoRow>)
    ensures
        upsert_all(upsert_all(videos, batch), batch) == upsert_all(videos, batch),
{
    let once = upsert_all(videos, batch);
    lemma_upsert_all(videos, batch);
    lemma_upsert_all(once, batch);
    assert(upsert_all(once, batch) =~= once);
}

/// After a refresh that upstream answered, the video table holds none of
/// the ids that the outcome deletes. Under every other id it holds what the
/// batch last wrote there, and what it held before where the batch wrote
/// nothing.
pub proof fn lemma_refresh_effect(
    tables: Tables,
    requested: Seq<Seq<char>>,
    returned: Vec<YoutubeVideo>,
    id: Seq<char>,
)
    requires
        requested.len() > 0,
    ensures
        ({
            let after = after_refresh(tables, requested, Ok(returned)).videos;
            let deletes = refresh_deletes(requested, returned@);
            let batch = video_rows(refresh_upserts(requested, returned@));
            &&& deletes.contains(id) ==> !after.dom().contains(id)
            &&& !deletes.contains(id) ==> (after.dom().contains(id) <==> tables.videos.dom().contains(
                id,
            ) || last_write(batch, id) is Some)
            &&& !deletes.contains(id) && last_write(batch, id) is Some ==> after[id] == last_write(
                batch,
                id,
            )->0
            &&& !deletes.contains(id) && last_write(batch, id) is None && tables.videos.dom().contains(
                id,
            ) ==> after[id] == tables.videos[id]
        }),
{
    lemma_upsert_all(tables.videos, video_rows(refresh_upserts(requested, returned@)));
}

/// The ids that the probes of all channels found, channel after channel.
pub open spec fn candidates(probes: Seq<Vec<String>>) -> Seq<Seq<char>>
    decreases probes.len(),
{
    if probes.len() == 0 {
        Seq::empty()
    } else {
        candidates(probes.drop_last()) + texts(probes.last()@)
    }
}

/// The tables after the discovery job: as they were where the probes found
/// nothing or the call upstream failed, and otherwise with every reported
/// video written.
pub open spec fn after_discovery(
    tables: Tables,
    found: Seq<Seq<char>>,
    response: Result<Vec<YoutubeVideo>, GatewayError>,
) -> Tables {
    match response {
        Ok(returned) => if found.len() == 0 {
            tables
        } else {
            Tables {
                videos: upsert_all(tables.videos, video_rows(reported_rows(returned@))),
                ..tables
            }
        },
        Err(_) => tables,
    }
}

/// Running the discovery job a second time on the same candidates and the
/// same answer leaves the tables as the first run left them.
pub proof fn lemma_discovery_idempotent(
    tables: Tables,
    found: Seq<Seq<char>>,
    response: Result<Vec<YoutubeVideo>, GatewayError>,
)
    ensures
        after_discovery(after_discovery(tables, found, response), found, response)
            == after_discovery(tables, found, response),
{
    if let Ok(returned) = response {
        lemma_upsert_all_twice(tables.videos, video_rows(reported_rows(returned@)));
    }
}

/// The ids that the discovery job asks upstream about: what the probes of
/// the active channels found, channel after channel. With none, there is
/// nothing to ask and nothing to do.
pub fn discovery_request(probes: &Vec<Vec<String>>) -> (ids: Vec<String>)
    ensures
        texts(ids@) == candidates(probes@),
{
    let mut ids: Vec<String> = Vec::new();
    let mut i: usize = 0;
    assert(texts(ids@) =~= candidates(probes@.take(0)));
    while i < probes.len()
        invariant
            i <= probes.len(),
            texts(ids@) == candidates(probes@.take(i as int)),
        decreases probes.len() - i,
    {
        let found = &probes[i];
        let ghost before = texts(ids@);
        let mut k: usize = 0;
        while k < found.len()
            invariant
                k <= found.len(),
                texts(ids@) == before + texts(found@).take(k as int),
            decreases found.len() - k,
        {
            let ghost sofar = texts(ids@);
            ids.push(found[k].clone());
            proof {
                assert(texts(ids@) =~= sofar.push(found[k as int]@));
                assert(texts(found@).take(k + 1) =~= texts(found@).take(k as int).push(
                    found[k as int]@,
                ));
                assert(texts(ids@) =~= before + texts(found@).take(k + 1));
            }
            k += 1;
        }
        proof {
            assert(texts(found@).take(found.len() as int) =~= texts(found@));
            assert(probes@.take(i + 1).drop_last() =~= probes@.take(i as int));
        }
        i += 1;
    }
    assert(probes@.take(probes.len() as int) =~= probes@);
    ids
}

/// The discovery job, handed the answer to its request. A failed call
/// upstream changes nothing, and neither does an empty request. Otherwise
/// every reported video is written; the batch is returned.
pub fn check_new_videos(
    store: &mut Store,
    found: &Vec<String>,
    response: &Result<Vec<YoutubeVideo>, GatewayError>,
) -> (upserts: Vec<DbVideo>)
    requires
        old(store).wf(),
    ensures
        final(store).wf(),
        final(store)@ == after_discovery(old(store)@, texts(found@), *response),
        found.len() == 0 || response is Err ==> upserts@.len() == 0,
        found.len() > 0 ==> (response matches Ok(returned) ==> upserts@ == reported_rows(returned@)),
{
    match response {
        Ok(returned) => {
            if found.len() == 0 {
                return Vec::new();
            }
            let upserts = all_rows(returned);
            upsert_db_videos(store, clone_videos(&upserts));
            upserts
        },
        Err(_) => Vec::new(),
    }
}

/// The row that a channel becomes when upstream reports it: enabled.
pub open spec fn enabled_row(channel: YoutubeChannel) -> ChannelRow {
    ChannelRow { id: channel.id@, name: channel.name@, disabled: 0 }
}

/// The rows that the answers for the channels give, one for each answer that
/// is not a failure, in the order of the answers.
pub open spec fn fetched_rows(answers: Seq<Result<YoutubeChannel, GatewayError>>) -> Seq<ChannelRow>
    decreases answers.len(),
{
    if answers.len() == 0 {
        Seq::empty()
    } else {
        match answers.last() {
            Ok(channel) => fetched_rows(answers.drop_last()).push(enabled_row(channel)),
            Err(_) => fetched_rows(answers.drop_last()),
        }
    }
}

/// The channel table after the rows of a batch were written in order.
pub open spec fn upsert_channels(channels: Map<Seq<char>, ChannelRow>, batch: Seq<ChannelRow>) -> Map<
    Seq<char>,
    ChannelRow,
>
    decreases batch.len(),
{
    if batch.len() == 0 {
        channels
    } else {
        upsert_channels(channels, batch.drop_last()).insert(batch.last().id, batch.last())
    }
}

/// Writes the channels that the first `n` answers report.
fn write_answers(store: &mut Store, answers: &Vec<Result<YoutubeChannel, GatewayError>>, n: usize) -> (written:
    Vec<DbChannel>)
    requires
        old(store).wf(),
        n <= answers.len(),
    ensures
        final(store).wf(),
        final(store)@.videos == old(store)@.videos,
        channel_rows(written@) == fetched_rows(answers@.take(n as int)),
        final(store)@.channels == upsert_channels(
            old(store)@.channels,
            fetched_rows(answers@.take(n as int)),
        ),
{
    let mut written: Vec<DbChannel> = Vec::new();
    let mut i: usize = 0;
    assert(channel_rows(written@) =~= fetched_rows(answers@.take(0)));
    while i < n
        invariant
            store.wf(),
            i <= n <= answers.len(),
            store@.videos == old(store)@.videos,
            channel_rows(written@) == fetched_rows(answers@.take(i as int)),
            store@.channels == upsert_channels(
                old(store)@.channels,
                fetched_rows(answers@.take(i as int)),
            ),
        decreases n - i,
    {
        let ghost before = channel_rows(written@);
        proof {
            assert(answers@.take(i + 1).drop_last() =~= answers@.take(i as int));
        }
        match &answers[i] {
            Ok(channel) => {
                let row = DbChannel::from(channel.clone());
                upsert_db_channel(store, row.clone());
                written.push(row);
                proof {
                    assert(channel_rows(written@) =~= before.push(enabled_row(*channel)));
                    assert(before.push(enabled_row(*channel)).drop_last() =~= before);
                }
            },
            Err(_) => {},
        }
        i += 1;
    }
    written
}

/// The channel-metadata job, handed one answer for each channel it asked
/// about. Each channel that upstream reported is written; an answer that is
/// a failure is passed over and stops nothing. The rows written are
/// returned.
pub fn update_channels(store: &mut Store, answers: &Vec<Result<YoutubeChannel, GatewayError>>) -> (written:
    Vec<DbChannel>)
    requires
        old(store).wf(),
    ensures
        final(store).wf(),
        final(store)@.videos == old(store)@.videos,
        channel_rows(written@) == fetched_rows(answers@),
        final(store)@.channels == upsert_channels(old(store)@.channels, fetched_rows(answers@)),
{
    assert(answers@.take(answers.len() as int) =~= answers@);
    write_answers(store, answers, answers.len())
}

/// The ids of the configured channels that the channel table does not hold,
/// in the order of the configuration: the channels to ask upstream about
/// before the jobs start.
pub fn bootstrap_request(config: &Config, store: &Store) -> (ids: Vec<String>)
    requires
        store.wf(),
    ensures
        texts(ids@) == tracked_ids(config.oshi@).filter(
            |id: Seq<char>| !store@.channels.dom().contains(id),
        ),
{
    let ghost all = tracked_ids(config.oshi@);
    let ghost absent = |id: Seq<char>| !store@.channels.dom().contains(id);
    let mut ids: Vec<String> = Vec::new();
    let mut i: usize = 0;
    proof {
        reveal(Seq::filter);
        assert(all.take(0).filter(absent) =~= Seq::<Seq<char>>::empty());
        assert(texts(ids@) =~= Seq::<Seq<char>>::empty());
    }
    while i < config.oshi.len()
        invariant
            store.wf(),
            i <= config.oshi.len(),
            all == tracked_ids(config.oshi@),
            absent == (|id: Seq<char>| !store@.channels.dom().contains(id)),
            texts(ids@) == all.take(i as int).filter(absent),
        decreases config.oshi.len() - i,
    {
        let ghost before = texts(ids@);
        proof {
            assert(all.take(i + 1) =~= all.take(i as int).push(all[i as int]));
            all.take(i as int).lemma_filter_push(all[i as int], absent);
        }
        if !has_db_channel(store, &config.oshi[i].1) {
            ids.push(config.oshi[i].1.clone());
            assert(texts(ids@) =~= before.push(all[i as int]));
        }
        i += 1;
    }
    assert(all.take(config.oshi.len() as int) =~= all);
    ids
}

/// `n` answers came before the first failure; with `n` the number of
/// answers, none failed.
pub open spec fn is_first_failure(answers: Seq<Result<YoutubeChannel, GatewayError>>, n: int) -> bool {
    &&& 0 <= n <= answers.len()
    &&& forall|k: int| 0 <= k < n ==> (#[trigger] answers[k]) is Ok
    &&& n < answers.len() ==> answers[n] is Err
}

/// Brings the channel table up to the configuration before the jobs start,
/// handed one answer for each channel of `bootstrap_request`, in its order.
/// The channels reported before the first failure are written, and the rows
/// written are returned. A failure ends the bootstrap, and is returned: the
/// service must not start on it.
pub fn init_scheduler(store: &mut Store, answers: &Vec<Result<YoutubeChannel, GatewayError>>) -> (r: (
    Vec<DbChannel>,
    Option<GatewayError>,
))
    requires
        old(store).wf(),
    ensures
        final(store).wf(),
        final(store)@.videos == old(store)@.videos,
        exists|n: int|
            {
                &&& is_first_failure(answers@, n)
                &&& channel_rows(r.0@) == fetched_rows(answers@.take(n))
                &&& final(store)@.channels == upsert_channels(
                    old(store)@.channels,
                    fetched_rows(answers@.take(n)),
                )
                &&& r.1 == if n < answers.len() {
                    Some(answers[n]->Err_0)
                } else {
                    None::<GatewayError>
                }
            },
{
    let mut n: usize = 0;
    let mut failure: Option<GatewayError> = None;
    while n < answers.len()
        invariant_except_break
            failure is None,
        invariant
            n <= answers.len(),
            forall|k: int| 0 <= k < n ==> (#[trigger] answers[k]) is Ok,
        ensures
            is_first_failure(answers@, n as int),
            failure == if n < answers.len() {
                Some(answers[n as int]->Err_0)
            } else {
                None::<GatewayError>
            },
        decreases answers.len() - n,
    {
        match &answers[n] {
            Ok(_) => {},
            Err(e) => {
                failure = Some(*e);
                break ;
            },
        }
        n += 1;
    }
    let written = write_answers(store, answers, n);
    (written, failure)
}

} // verus!
