//! The pages, and the cache that serves them.

pub mod cache;
pub mod index;
pub mod list;

use vstd::prelude::*;
use vstd::string::*;
use crate::api::{channel_rows, clone_opt, opt_text};
use crate::config::Config;
use crate::pages::cache::{CacheMap, Selector, served};
use crate::pages::index::{is_index_json, is_index_text};
use crate::pages::list::{list_json, list_text};
use crate::sqlite::{Store, Tables, get_db_channels, is_active};

verus! {

/// What a page is rendered for: the selected channel, a word in its place,
/// or nothing.
#[derive(Debug)]
pub struct PageContext {
    pub channel_id: Option<String>,
}

impl Clone for PageContext {
    fn clone(&self) -> (r: Self)
        ensures
            r == *self,
    {
        PageContext { channel_id: clone_opt(&self.channel_id) }
    }
}

/// The kinds of page.
#[derive(Hash, Eq, PartialEq, Copy, Clone, Debug, Structural)]
pub enum Pages {
    /// The upcoming videos, of one channel or of all.
    Root,
    /// The tracked channels.
    List,
}

/// Why a page could not be rendered.
#[derive(Debug, Clone, Copy, PartialEq, Eq, Structural)]
pub enum RenderError {
    /// A configured channel is not among the active channels.
    UntrackedChannel,
}

/// The four caches: one for each kind of page and each format.
pub struct PageCache {
    pub root_text: CacheMap,
    pub root_json: CacheMap,
    pub list_text: CacheMap,
    pub list_json: CacheMap,
}

/// What the four caches hold.
pub struct CacheView {
    pub root_text: Map<Selector, Seq<char>>,
    pub root_json: Map<Selector, Seq<char>>,
    pub list_text: Map<Selector, Seq<char>>,
    pub list_json: Map<Selector, Seq<char>>,
}

impl CacheView {
    /// The cache of the plain-text renderings of a kind of page.
    pub open spec fn text(self, page: Pages) -> Map<Selector, Seq<char>> {
        match page {
            Pages::Root => self.root_text,
            Pages::List => self.list_text,
        }
    }

    /// The cache of the JSON renderings of a kind of page.
    pub open spec fn json(self, page: Pages) -> Map<Selector, Seq<char>> {
        match page {
            Pages::Root => self.root_json,
            Pages::List => self.list_json,
        }
    }

    /// These caches with another plain-text cache for a kind of page.
    pub open spec fn with_text(self, page: Pages, map: Map<Selector, Seq<char>>) -> CacheView {
        match page {
            Pages::Root => CacheView { root_text: map, ..self },
            Pages::List => CacheView { list_text: map, ..self },
        }
    }

    /// These caches with another JSON cache for a kind of page.
    pub open spec fn with_json(self, page: Pages, map: Map<Selector, Seq<char>>) -> CacheView {
        match page {
            Pages::Root => CacheView { root_json: map, ..self },
            Pages::List => CacheView { list_json: map, ..self },
        }
    }
}

impl View for PageCache {
    type V = CacheView;

    open spec fn view(&self) -> CacheView {
        CacheView {
            root_text: self.root_text@,
            root_json: self.root_json@,
            list_text: self.list_text@,
            list_json: self.list_json@,
        }
    }
}

impl PageCache {
    /// Each of the four caches is well formed.
    pub open spec fn wf(&self) -> bool {
        self.root_text.wf() && self.root_json.wf() && self.list_text.wf() && self.list_json.wf()
    }

    /// Four caches without entries.
    pub fn new() -> (r: PageCache)
        ensures
            r.wf(),
            r@.root_text == Map::<Selector, Seq<char>>::empty(),
            r@.root_json == Map::<Selector, Seq<char>>::empty(),
            r@.list_text == Map::<Selector, Seq<char>>::empty(),
            r@.list_json == Map::<Selector, Seq<char>>::empty(),
    {
        PageCache {
            root_text: CacheMap::new(),
            root_json: CacheMap::new(),
            list_text: CacheMap::new(),
            list_json: CacheMap::new(),
        }
    }
}

/// What the pages are rendered from, and the caches that serve them.
pub struct Site {
    pub config: Config,
    pub store: Store,
    pub cache: PageCache,
}

impl Site {
    /// The tables and the caches are well formed.
    pub open spec fn wf(&self) -> bool {
        self.store.wf() && self.cache.wf()
    }
}

/// `label` is a date and a distance in time that `humanize` gives for a
/// timestamp. What it gives depends on the moment it is asked.
pub open spec fn humanized<F: Fn(&str) -> (String, String)>(
    humanize: &F,
    stamp: Seq<char>,
    label: (Seq<char>, Seq<char>),
) -> bool {
    exists|s: &str, r: (String, String)|
        s@ == stamp && #[trigger] call_ensures(*humanize, (s,), r) && r.0@ == label.0 && r.1@
            == label.1
}

/// A page in its two formats. Rendering reads the tables and the
/// configuration and leaves them as they are. The plain-text format may show
/// times relative to the present, for which it asks `humanize`.
pub trait Render {
    /// The page in plain text.
    fn render_text<F: Fn(&str) -> (String, String)>(
        &self,
        site: &mut Site,
        ctx: PageContext,
        humanize: &F,
    ) -> (r: Result<String, RenderError>)
        requires
            old(site).wf(),
            forall|s: &str| call_requires(*humanize, (s,)),
        ensures
            final(site).wf(),
            final(site).store == old(site).store,
            final(site).config == old(site).config,
    ;

    /// The page as JSON.
    fn render_json(&self, site: &mut Site, ctx: PageContext) -> (r: Result<String, RenderError>)
        requires
            old(site).wf(),
        ensures
            final(site).wf(),
            final(site).store == old(site).store,
            final(site).config == old(site).config,
    ;
}

/// The view of a rendering.
pub open spec fn rendered(r: Result<String, RenderError>) -> Result<Seq<char>, RenderError> {
    match r {
        Ok(t) => Ok(t@),
        Err(e) => Err(e),
    }
}

/// `out` is what rendering a kind of page in plain text gives.
pub open spec fn is_page_text<F: Fn(&str) -> (String, String)>(
    page: Pages,
    tables: Tables,
    oshi: Seq<(String, String)>,
    key: Selector,
    humanize: &F,
    out: Result<Seq<char>, RenderError>,
) -> bool {
    match page {
        Pages::Root => out matches Ok(t) && is_index_text(tables, key, humanize, t),
        Pages::List => out == list_text(tables, oshi),
    }
}

/// `out` is what rendering a kind of page as JSON gives.
pub open spec fn is_page_json(
    page: Pages,
    tables: Tables,
    oshi: Seq<(String, String)>,
    key: Selector,
    out: Result<Seq<char>, RenderError>,
) -> bool {
    match page {
        Pages::Root => out matches Ok(t) && is_index_json(tables, key, t),
        Pages::List => out == list_json(tables, oshi),
    }
}

/// A cache after a miss under `key` that `inner` answered, and what is
/// handed out: a rendering is kept and handed out; a failure leaves the cache
/// as it was, and empty content is handed out in its place.
pub open spec fn filled(
    before: Map<Selector, Seq<char>>,
    key: Selector,
    inner: Result<Seq<char>, RenderError>,
    after: Map<Selector, Seq<char>>,
    out: Seq<char>,
) -> bool {
    match inner {
        Ok(t) => out == t && after == before.insert(key, t),
        Err(_) => out == Seq::<char>::empty() && after == before,
    }
}

/// Reading a plain-text page through the cache: what is held under the
/// selector is handed out and nothing changes; where nothing is held, the
/// page is rendered and kept.
pub open spec fn reads_text<F: Fn(&str) -> (String, String)>(
    page: Pages,
    site: Site,
    key: Selector,
    humanize: &F,
    after: CacheView,
    out: Seq<char>,
) -> bool {
    match served(site.cache@.text(page), key) {
        Some(t) => out == t && after == site.cache@,
        None => exists|inner: Result<Seq<char>, RenderError>, map: Map<Selector, Seq<char>>|
            {
                &&& #[trigger] is_page_text(
                    page,
                    site.store@,
                    site.config.oshi@,
                    key,
                    humanize,
                    inner,
                )
                &&& #[trigger] filled(site.cache@.text(page), key, inner, map, out)
                &&& after == site.cache@.with_text(page, map)
            },
    }
}

/// Reading a JSON page through the cache.
pub open spec fn reads_json(page: Pages, site: Site, key: Selector, after: CacheView, out: Seq<char>) -> bool {
    match served(site.cache@.json(page), key) {
        Some(t) => out == t && after == site.cache@,
        None => exists|inner: Result<Seq<char>, RenderError>, map: Map<Selector, Seq<char>>|
            {
                &&& #[trigger] is_page_json(page, site.store@, site.config.oshi@, key, inner)
                &&& #[trigger] filled(site.cache@.json(page), key, inner, map, out)
                &&& after == site.cache@.with_json(page, map)
            },
    }
}

/// The selectors whose renderings a repopulation of a kind of page
/// replaces: for the videos, every active channel and the word for all
/// channels; for the channel list, the one empty selector.
pub open spec fn in_space(page: Pages, tables: Tables, key: Selector) -> bool {
    match page {
        Pages::Root => key matches Some(c) && (c == "all"@ || is_active(tables, c)),
        Pages::List => key is None,
    }
}

/// The cache holds under `key` a plain-text rendering from these tables, or
/// nothing where rendering fails.
pub open spec fn fresh_text<F: Fn(&str) -> (String, String)>(
    page: Pages,
    tables: Tables,
    oshi: Seq<(String, String)>,
    humanize: &F,
    key: Selector,
    map: Map<Selector, Seq<char>>,
) -> bool {
    match served(map, key) {
        Some(t) => is_page_text(page, tables, oshi, key, humanize, Ok(t)),
        None => is_page_text(page, tables, oshi, key, humanize, Err(RenderError::UntrackedChannel)),
    }
}

/// The cache holds under `key` a JSON rendering from these tables, or
/// nothing where rendering fails.
pub open spec fn fresh_json(
    page: Pages,
    tables: Tables,
    oshi: Seq<(String, String)>,
    key: Selector,
    map: Map<Selector, Seq<char>>,
) -> bool {
    match served(map, key) {
        Some(t) => is_page_json(page, tables, oshi, key, Ok(t)),
        None => is_page_json(page, tables, oshi, key, Err(RenderError::UntrackedChannel)),
    }
}

/// A plain-text cache after a repopulation: fresh under every selector of
/// the space, untouched under every other.
pub open spec fn repopulated_text<F: Fn(&str) -> (String, String)>(
    page: Pages,
    tables: Tables,
    oshi: Seq<(String, String)>,
    humanize: &F,
    before: Map<Selector, Seq<char>>,
    after: Map<Selector, Seq<char>>,
) -> bool {
    forall|key: Selector|
        #![trigger served(after, key)]
        (in_space(page, tables, key) ==> fresh_text(page, tables, oshi, humanize, key, after)) && (
        !in_space(page, tables, key) ==> served(after, key) == served(before, key))
}

/// A JSON cache after a repopulation.
pub open spec fn repopulated_json(
    page: Pages,
    tables: Tables,
    oshi: Seq<(String, String)>,
    before: Map<Selector, Seq<char>>,
    after: Map<Selector, Seq<char>>,
) -> bool {
    forall|key: Selector|
        #![trigger served(after, key)]
        (in_space(page, tables, key) ==> fresh_json(page, tables, oshi, key, after)) && (!in_space(
            page,
            tables,
            key,
        ) ==> served(after, key) == served(before, key))
}

/// After a repopulation, a read of a selector of the space whose rendering
/// did not fail hands out the content that the repopulation rendered, and
/// renders nothing: whatever the tables hold by then, and whatever
/// `humanize` would say by then, the content is the one in the cache, and
/// the cache stays as it is.
pub proof fn lemma_repopulated_text_is_served<F: Fn(&str) -> (String, String), G: Fn(&str) -> (
    String,
    String,
)>(
    page: Pages,
    tables: Tables,
    oshi: Seq<(String, String)>,
    humanize: &F,
    before: Map<Selector, Seq<char>>,
    site: Site,
    key: Selector,
    later: &G,
    after: CacheView,
    out: Seq<char>,
)
    requires
        repopulated_text(page, tables, oshi, humanize, before, site.cache@.text(page)),
        in_space(page, tables, key),
        site.cache@.text(page).dom().contains(key),
        reads_text(page, site, key, later, after, out),
    ensures
        is_page_text(page, tables, oshi, key, humanize, Ok(out)),
        after == site.cache@,
{
    assert(served(site.cache@.text(page), key) == Some(out));
}

/// The same for JSON.
pub proof fn lemma_repopulated_json_is_served(
    page: Pages,
    tables: Tables,
    oshi: Seq<(String, String)>,
    before: Map<Selector, Seq<char>>,
    site: Site,
    key: Selector,
    after: CacheView,
    out: Seq<char>,
)
    requires
        repopulated_json(page, tables, oshi, before, site.cache@.json(page)),
        in_space(page, tables, key),
        site.cache@.json(page).dom().contains(key),
        reads_json(page, site, key, after, out),
    ensures
        is_page_json(page, tables, oshi, key, Ok(out)),
        after == site.cache@,
{
    assert(served(site.cache@.json(page), key) == Some(out));
}

/// A kind of page rendered in plain text from the tables, past the cache.
fn fresh_render_text<F: Fn(&str) -> (String, String)>(
    page: Pages,
    site: &mut Site,
    key: &Option<String>,
    humanize: &F,
) -> (r: Result<String, RenderError>)
    requires
        old(site).wf(),
        forall|s: &str| call_requires(*humanize, (s,)),
    ensures
        *final(site) == *old(site),
        is_page_text(
            page,
            old(site).store@,
            old(site).config.oshi@,
            opt_text(*key),
            humanize,
            rendered(r),
        ),
{
    let ctx = PageContext { channel_id: clone_opt(key) };
    match page {
        Pages::Root => (index::Page {}).render_text(site, ctx, humanize),
        Pages::List => (list::Page {}).render_text(site, ctx, humanize),
    }
}

/// A kind of page rendered as JSON from the tables, past the cache.
fn fresh_render_json(page: Pages, site: &mut Site, key: &Option<String>) -> (r: Result<
    String,
    RenderError,
>)
    requires
        old(site).wf(),
    ensures
        *final(site) == *old(site),
        is_page_json(page, old(site).store@, old(site).config.oshi@, opt_text(*key), rendered(r)),
{
    let ctx = PageContext { channel_id: clone_opt(key) };
    match page {
        Pages::Root => (index::Page {}).render_json(site, ctx),
        Pages::List => (list::Page {}).render_json(site, ctx),
    }
}

impl Render for Pages {
    /// The page in plain text, from the cache where the cache holds it.
    fn render_text<F: Fn(&str) -> (String, String)>(
        &self,
        site: &mut Site,
        ctx: PageContext,
        humanize: &F,
    ) -> (r: Result<String, RenderError>)
        ensures
            r matches Ok(t) && reads_text(
                *self,
                *old(site),
                opt_text(ctx.channel_id),
                humanize,
                final(site).cache@,
                t@,
            ),
    {
        let ghost key = opt_text(ctx.channel_id);
        let hit = match self {
            Pages::Root => site.cache.root_text.get(&ctx.channel_id),
            Pages::List => site.cache.list_text.get(&ctx.channel_id),
        };
        if let Some(content) = hit {
            return Ok(content);
        }
        let inner = fresh_render_text(*self, site, &ctx.channel_id, humanize);
        match inner {
            Ok(content) => {
                let kept = content.clone();
                match self {
                    Pages::Root => site.cache.root_text.insert(ctx.channel_id, kept),
                    Pages::List => site.cache.list_text.insert(ctx.channel_id, kept),
                }
                proof {
                    let map = old(site).cache@.text(*self).insert(key, content@);
                    assert(filled(old(site).cache@.text(*self), key, rendered(inner), map, content@));
                    assert(site.cache@ == old(site).cache@.with_text(*self, map));
                }
                Ok(content)
            },
            Err(_) => {
                let content = String::new();
                proof {
                    let map = old(site).cache@.text(*self);
                    assert(filled(map, key, rendered(inner), map, content@));
                    assert(site.cache@ == old(site).cache@.with_text(*self, map));
                }
                Ok(content)
            },
        }
    }

    /// The page as JSON, from the cache where the cache holds it.
    fn render_json(&self, site: &mut Site, ctx: PageContext) -> (r: Result<String, RenderError>)
        ensures
            r matches Ok(t) && reads_json(
                *self,
                *old(site),
                opt_text(ctx.channel_id),
                final(site).cache@,
                t@,
            ),
    {
        let ghost key = opt_text(ctx.channel_id);
        let hit = match self {
            Pages::Root => site.cache.root_json.get(&ctx.channel_id),
            Pages::List => site.cache.list_json.get(&ctx.channel_id),
        };
        if let Some(content) = hit {
            return Ok(content);
        }
        let inner = fresh_render_json(*self, site, &ctx.channel_id);
        match inner {
            Ok(content) => {
                let kept = content.clone();
                match self {
                    Pages::Root => site.cache.root_json.insert(ctx.channel_id, kept),
                    Pages::List => site.cache.list_json.insert(ctx.channel_id, kept),
                }
                proof {
                    let map = old(site).cache@.json(*self).insert(key, content@);
                    assert(filled(old(site).cache@.json(*self), key, rendered(inner), map, content@));
                    assert(site.cache@ == old(site).cache@.with_json(*self, map));
                }
                Ok(content)
            },
            Err(_) => {
                let content = String::new();
                proof {
                    let map = old(site).cache@.json(*self);
                    assert(filled(map, key, rendered(inner), map, content@));
                    assert(site.cache@ == old(site).cache@.with_json(*self, map));
                }
                Ok(content)
            },
        }
    }
}

/// The selectors whose renderings a repopulation of a kind of page
/// replaces.
pub fn selector_space(page: Pages, store: &Store) -> (keys: Vec<Option<String>>)
    requires
        store.wf(),
    ensures
        keys.len() > 0,
        page == Pages::List ==> keys.len() == 1,
        forall|key: Selector|
            in_space(page, store@, key) <==> exists|i: int|
                0 <= i < keys.len() && opt_text(#[trigger] keys[i]) == key,
{
    let mut keys: Vec<Option<String>> = Vec::new();
    match page {
        Pages::Root => {
            let channels = get_db_channels(store);
            let ghost rows = channel_rows(channels@);
            let mut i: usize = 0;
            while i < channels.len()
                invariant
                    i <= channels.len(),
                    rows == channel_rows(channels@),
                    keys.len() == i,
                    forall|k: int| 0 <= k < i ==> opt_text(#[trigger] keys[k]) == Some(rows[k].id),
                decreases channels.len() - i,
            {
                keys.push(Some(channels[i].id.clone()));
                i += 1;
            }
            keys.push(Some(String::from_str("all")));
            proof {
                let n = channels.len() as int;
                assert forall|key: Selector| in_space(page, store@, key) implies exists|i: int|
                    0 <= i < keys.len() && opt_text(#[trigger] keys[i]) == key by {
                    let c = key->0;
                    if c == "all"@ {
                        assert(opt_text(keys[n]) == key);
                    } else {
                        assert(is_active(store@, c));
                        let k = choose|k: int| 0 <= k < rows.len() && (#[trigger] rows[k]).id == c;
                        assert(opt_text(keys[k]) == key);
                    }
                }
                assert forall|key: Selector|
                    (exists|i: int| 0 <= i < keys.len() && opt_text(#[trigger] keys[i]) == key)
                    implies in_space(page, store@, key) by {
                    let i = choose|i: int| 0 <= i < keys.len() && opt_text(#[trigger] keys[i]) == key;
                    if i < n {
                        assert(is_active(store@, rows[i].id));
                    }
                }
            }
        },
        Pages::List => {
            keys.push(None);
            proof {
                assert forall|key: Selector| in_space(page, store@, key) implies exists|i: int|
                    0 <= i < keys.len() && opt_text(#[trigger] keys[i]) == key by {
                    assert(opt_text(keys[0]) == key);
                }
            }
        },
    }
    keys
}

/// Renders a kind of page anew for every selector of its space, in both
/// formats, and puts the renderings into the cache in place of what it held
/// under these selectors. Where rendering fails, the cache holds nothing
/// under the selector afterwards, and the failure is returned. What the
/// cache holds under other selectors, and for the other kind of page, stays.
pub fn refresh_page<F: Fn(&str) -> (String, String)>(page: Pages, site: &mut Site, humanize: &F) -> (r:
    Result<(), RenderError>)
    requires
        old(site).wf(),
        forall|s: &str| call_requires(*humanize, (s,)),
    ensures
        final(site).wf(),
        final(site).store == old(site).store,
        final(site).config == old(site).config,
        repopulated_text(
            page,
            old(site).store@,
            old(site).config.oshi@,
            humanize,
            old(site).cache@.text(page),
            final(site).cache@.text(page),
        ),
        repopulated_json(
            page,
            old(site).store@,
            old(site).config.oshi@,
            old(site).cache@.json(page),
            final(site).cache@.json(page),
        ),
        final(site).cache@ == old(site).cache@.with_text(page, final(site).cache@.text(page)).with_json(
            page,
            final(site).cache@.json(page),
        ),
        r is Err <==> page == Pages::List && list_text(old(site).store@, old(site).config.oshi@) is Err,
{
    let ghost tables = site.store@;
    let ghost oshi = site.config.oshi@;
    let ghost text0 = site.cache@.text(page);
    let ghost json0 = site.cache@.json(page);
    let keys = selector_space(page, &site.store);
    let mut failure: Option<RenderError> = None;
    let mut i: usize = 0;
    while i < keys.len()
        invariant
            i <= keys.len(),
            keys.len() > 0,
            site.wf(),
            site.store == old(site).store,
            site.config == old(site).config,
            tables == site.store@,
            oshi == site.config.oshi@,
            forall|s: &str| call_requires(*humanize, (s,)),
            site.cache@ == old(site).cache@.with_text(page, site.cache@.text(page)).with_json(
                page,
                site.cache@.json(page),
            ),
            forall|key: Selector|
                #![trigger served(site.cache@.text(page), key)]
                #![trigger served(site.cache@.json(page), key)]
                if exists|k: int| 0 <= k < i && opt_text(#[trigger] keys[k]) == key {
                    fresh_text(page, tables, oshi, humanize, key, site.cache@.text(page))
                        && fresh_json(page, tables, oshi, key, site.cache@.json(page))
                } else {
                    served(site.cache@.text(page), key) == served(text0, key) && served(
                        site.cache@.json(page),
                        key,
                    ) == served(json0, key)
                },
            failure is Some ==> page == Pages::List && list_text(tables, oshi) is Err,
            page == Pages::List && list_text(tables, oshi) is Err && i > 0 ==> failure is Some,
        decreases keys.len() - i,
    {
        let ghost cache1 = site.cache@;
        let ghost key = opt_text(keys[i as int]);
        let text = fresh_render_text(page, site, &keys[i], humanize);
        match text {
            Ok(content) => {
                match page {
                    Pages::Root => site.cache.root_text.insert(clone_opt(&keys[i]), content),
                    Pages::List => site.cache.list_text.insert(clone_opt(&keys[i]), content),
                }
            },
            Err(e) => {
                match page {
                    Pages::Root => site.cache.root_text.remove(&keys[i]),
                    Pages::List => site.cache.list_text.remove(&keys[i]),
                }
                failure = Some(e);
            },
        }
        let json = fresh_render_json(page, site, &keys[i]);
        match json {
            Ok(content) => {
                match page {
                    Pages::Root => site.cache.root_json.insert(clone_opt(&keys[i]), content),
                    Pages::List => site.cache.list_json.insert(clone_opt(&keys[i]), content),
                }
            },
            Err(e) => {
                match page {
                    Pages::Root => site.cache.root_json.remove(&keys[i]),
                    Pages::List => site.cache.list_json.remove(&keys[i]),
                }
                failure = Some(e);
            },
        }
        proof {
            assert(fresh_text(page, tables, oshi, humanize, key, site.cache@.text(page)));
            assert(fresh_json(page, tables, oshi, key, site.cache@.json(page)));
            assert forall|other: Selector|
                #![trigger served(site.cache@.text(page), other)]
                #![trigger served(site.cache@.json(page), other)]
                if exists|k: int| 0 <= k < i + 1 && opt_text(#[trigger] keys[k]) == other {
                    fresh_text(page, tables, oshi, humanize, other, site.cache@.text(page))
                        && fresh_json(page, tables, oshi, other, site.cache@.json(page))
                } else {
                    served(site.cache@.text(page), other) == served(text0, other) && served(
                        site.cache@.json(page),
                        other,
                    ) == served(json0, other)
                } by {
                if other != key {
                    assert(served(site.cache@.text(page), other) == served(cache1.text(page), other));
                    assert(served(site.cache@.json(page), other) == served(cache1.json(page), other));
                    if exists|k: int| 0 <= k < i + 1 && opt_text(#[trigger] keys[k]) == other {
                        let k = choose|k: int| 0 <= k < i + 1 && opt_text(#[trigger] keys[k]) == other;
                        assert(0 <= k < i && opt_text(keys[k]) == other);
                    }
                } else {
                    assert(opt_text(keys[i as int]) == other);
                }
            }
        }
        i += 1;
    }
    match failure {
        Some(e) => Err(e),
        None => Ok(()),
    }
}

} // verus!
