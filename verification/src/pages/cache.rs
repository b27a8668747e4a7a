//! One map from selector to rendered content.

use vstd::prelude::*;
use vstd::string::*;
use crate::api::opt_text;
use crate::table::{lemma_table_entry, lemma_table_push, lemma_table_remove, lemma_table_update, table};

verus! {

/// What selects a rendering: a channel id, a word that stands for a set of
/// channels, or nothing.
pub type Selector = Option<Seq<char>>;

/// Rendered content by selector. Entries stay until they are replaced or
/// removed.
pub struct CacheMap {
    entries: Vec<(Option<String>, String)>,
}

/// What a cache serves under a selector without rendering anything.
pub open spec fn served(map: Map<Selector, Seq<char>>, key: Selector) -> Option<Seq<char>> {
    if map.dom().contains(key) {
        Some(map[key])
    } else {
        None
    }
}

/// Whether two selectors are the same.
pub fn same_selector(a: &Option<String>, b: &Option<String>) -> (r: bool)
    ensures
        r == (opt_text(*a) == opt_text(*b)),
{
    match (a, b) {
        (Some(x), Some(y)) => *x == *y,
        (None, None) => true,
        _ => false,
    }
}

/// The selectors of the entries, in their order.
spec fn keys(entries: Seq<(Option<String>, String)>) -> Seq<Selector> {
    entries.map_values(|e: (Option<String>, String)| opt_text(e.0))
}

/// The contents of the entries, in their order.
spec fn contents(entries: Seq<(Option<String>, String)>) -> Seq<Seq<char>> {
    entries.map_values(|e: (Option<String>, String)| e.1@)
}

impl View for CacheMap {
    type V = Map<Selector, Seq<char>>;

    closed spec fn view(&self) -> Map<Selector, Seq<char>> {
        table(keys(self.entries@), contents(self.entries@))
    }
}

impl CacheMap {
    /// No selector has two entries.
    pub closed spec fn wf(&self) -> bool {
        keys(self.entries@).no_duplicates()
    }

    /// A cache without entries.
    pub fn new() -> (r: CacheMap)
        ensures
            r.wf(),
            r@ == Map::<Selector, Seq<char>>::empty(),
    {
        let r = CacheMap { entries: Vec::new() };
        assert(r@ =~= Map::<Selector, Seq<char>>::empty());
        r
    }

    /// The position of the entry for a selector.
    fn find(&self, key: &Option<String>) -> (r: Option<usize>)
        ensures
            r matches Some(i) ==> i < self.entries.len() && opt_text(self.entries[i as int].0)
                == opt_text(*key),
            r is None ==> !keys(self.entries@).contains(opt_text(*key)),
    {
        let mut i: usize = 0;
        while i < self.entries.len()
            invariant
                i <= self.entries.len(),
                forall|k: int| 0 <= k < i ==> opt_text((#[trigger] self.entries[k]).0) != opt_text(*key),
            decreases self.entries.len() - i,
        {
            if same_selector(&self.entries[i].0, key) {
                return Some(i);
            }
            i += 1;
        }
        None
    }

    /// The content held under a selector.
    pub fn get(&self, key: &Option<String>) -> (r: Option<String>)
        requires
            self.wf(),
        ensures
            opt_text(r) == served(self@, opt_text(*key)),
    {
        match self.find(key) {
            Some(i) => {
                proof {
                    lemma_table_entry(keys(self.entries@), contents(self.entries@), i as int);
                }
                Some(self.entries[i].1.clone())
            },
            None => None,
        }
    }

    /// Puts content under a selector, in place of what was there.
    pub fn insert(&mut self, key: Option<String>, content: String)
        requires
            old(self).wf(),
        ensures
            final(self).wf(),
            final(self)@ == old(self)@.insert(opt_text(key), content@),
    {
        let ghost ks = keys(self.entries@);
        let ghost vs = contents(self.entries@);
        match self.find(&key) {
            Some(i) => {
                proof {
                    lemma_table_update(ks, vs, i as int, content@);
                }
                self.entries.set(i, (key, content));
                assert(keys(self.entries@) =~= ks);
                assert(contents(self.entries@) =~= vs.update(i as int, content@));
            },
            None => {
                proof {
                    lemma_table_push(ks, vs, opt_text(key), content@);
                }
                self.entries.push((key, content));
                assert(keys(self.entries@) =~= ks.push(opt_text(key)));
                assert(contents(self.entries@) =~= vs.push(content@));
            },
        }
    }

    /// Removes what is held under a selector.
    pub fn remove(&mut self, key: &Option<String>)
        requires
            old(self).wf(),
        ensures
            final(self).wf(),
            final(self)@ == old(self)@.remove(opt_text(*key)),
    {
        let ghost ks = keys(self.entries@);
        let ghost vs = contents(self.entries@);
        match self.find(key) {
            Some(i) => {
                proof {
                    lemma_table_remove(ks, vs, i as int);
                }
                let _ = self.entries.remove(i);
                assert(keys(self.entries@) =~= ks.remove(i as int));
                assert(contents(self.entries@) =~= vs.remove(i as int));
            },
            None => {
                assert(self@.remove(opt_text(*key)) =~= self@);
            },
        }
    }
}

} // verus!
