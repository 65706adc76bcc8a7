//! The sweep that follows the feed: it walks the available catalog entries
//! page by page and picks those whose key the feed did not list.

use vstd::prelude::*;

use std::collections::HashSet;

use crate::offer::opt_view;

verus! {

/// The keys seen in the feed so far.
#[verifier::external_body]
pub struct SeenIds {
    ids: HashSet<String>,
}

/// The keys that a `SeenIds` holds.
pub uninterp spec fn seen_ids(s: SeenIds) -> Set<Seq<char>>;

impl SeenIds {
    /// Relies on std's HashSet::new: an empty set.
    #[verifier::external_body]
    pub fn new() -> (r: SeenIds)
        ensures
            seen_ids(r) == Set::<Seq<char>>::empty(),
    {
        SeenIds { ids: HashSet::new() }
    }

    /// Relies on std's HashSet::insert: the key is in the set afterwards,
    /// and nothing else changes.
    #[verifier::external_body]
    pub fn insert(&mut self, id: String)
        ensures
            seen_ids(*final(self)) == seen_ids(*old(self)).insert(id@),
    {
        self.ids.insert(id);
    }

    /// Relies on std's HashSet::contains: whether the key is in the set.
    #[verifier::external_body]
    pub fn contains(&self, id: &String) -> (r: bool)
        ensures
            r == seen_ids(*self).contains(id@),
    {
        self.ids.contains(id)
    }
}

/// The keys of a page's entries that are not in `seen`, in page order.
/// Entries without a key are never picked.
pub open spec fn missing_keys(page: Seq<(i32, Option<Seq<char>>)>, seen: Set<Seq<char>>) -> Seq<
    Seq<char>,
>
    decreases page.len(),
{
    if page.len() == 0 {
        seq![]
    } else {
        let prev = missing_keys(page.drop_last(), seen);
        match page.last().1 {
            Some(k) => if seen.contains(k) {
                prev
            } else {
                prev.push(k)
            },
            None => prev,
        }
    }
}

pub open spec fn page_view(page: Seq<(i32, Option<String>)>) -> Seq<(i32, Option<Seq<char>>)> {
    page.map_values(|e: (i32, Option<String>)| (e.0, opt_view(e.1)))
}

pub open spec fn text_views(s: Seq<String>) -> Seq<Seq<char>> {
    s.map_values(|t: String| t@)
}

/// The ids of a page rise strictly, all above `cursor`.
pub open spec fn page_ascends(page: Seq<(i32, Option<Seq<char>>)>, cursor: i32) -> bool {
    &&& forall|i: int| 0 <= i < page.len() ==> cursor < #[trigger] page[i].0
    &&& forall|i: int, j: int| 0 <= i < j < page.len() ==> page[i].0 < page[j].0
}

/// Where the sweep stands: the id after which the next page starts, how
/// many entries it has picked, and whether it is over.
#[derive(Clone, Copy, Debug, PartialEq, Eq, Structural)]
pub struct SweepState {
    pub cursor: i32,
    pub marked: u64,
    pub done: bool,
}

/// A page that does not follow its cursor.
#[derive(Clone, Copy, Debug, PartialEq, Eq, Structural)]
pub enum SweepError {
    /// The page's ids do not rise strictly from the cursor on.
    PageOutOfOrder,
}

/// The number of entries the sweep can pick once its cursor is at `cursor`.
pub open spec fn sweep_bound(s: SweepState) -> int {
    s.cursor as int - i32::MIN as int
}

impl SweepState {
    /// The state before the first page: the cursor below every id.
    pub fn new() -> (r: SweepState)
        ensures
            r.cursor == 0,
            r.marked == 0,
            !r.done,
    {
        SweepState { cursor: 0, marked: 0, done: false }
    }

    pub open spec fn wf(self) -> bool {
        self.marked <= sweep_bound(self)
    }

    /// Takes the page of available entries that the store gave after the
    /// cursor (ids ascending), and returns the keys to mark as not
    /// available: those the feed did not list. An empty page ends the
    /// sweep; a page that does not rise from the cursor is refused.
    pub fn sweep_page(&mut self, page: &Vec<(i32, Option<String>)>, seen: &SeenIds) -> (r: Result<
        Vec<String>,
        SweepError,
    >)
        requires
            old(self).wf(),
        ensures
            final(self).wf(),
            match r {
                Ok(keys) => page_ascends(page_view(page@), old(self).cursor) && text_views(keys@)
                    == missing_keys(page_view(page@), seen_ids(*seen)) && final(self).marked
                    == old(self).marked + keys@.len() && final(self).done == (page@.len() == 0)
                    && (page@.len() == 0 ==> final(self).cursor == old(self).cursor) && (
                page@.len() > 0 ==> final(self).cursor == page@.last().0),
                Err(e) => e == SweepError::PageOutOfOrder && !page_ascends(
                    page_view(page@),
                    old(self).cursor,
                ) && *final(self) == *old(self),
            },
    {
        let ghost pv = page_view(page@);
        let mut keys: Vec<String> = Vec::new();
        let mut last = self.cursor;
        let mut i: usize = 0;
        while i < page.len()
            invariant
                pv == page_view(page@),
                *self == *old(self),
                self.wf(),
                i <= page@.len(),
                page_ascends(pv.take(i as int), self.cursor),
                i == 0 ==> last == self.cursor,
                i > 0 ==> last == pv[i - 1].0,
                last as int - self.cursor as int >= i,
                keys@.len() <= i,
                text_views(keys@) == missing_keys(pv.take(i as int), seen_ids(*seen)),
            decreases page@.len() - i,
        {
            let ghost t = pv.take(i as int + 1);
            proof {
                assert(t.drop_last() =~= pv.take(i as int));
                assert(t.last() == pv[i as int]);
            }
            let (id, key) = &page[i];
            if *id <= last {
                proof {
                    if i > 0 {
                        assert(pv[i - 1].0 >= pv[i as int].0);
                    }
                }
                return Err(SweepError::PageOutOfOrder);
            }
            last = *id;
            match key {
                Some(k) => {
                    if !seen.contains(k) {
                        keys.push(k.clone());
                        proof {
                            assert(text_views(keys@) =~= missing_keys(pv.take(i as int), seen_ids(*seen)).push(k@));
                        }
                    }
                },
                None => {},
            }
            i = i + 1;
        }
        proof {
            assert(pv.take(i as int) =~= pv);
            if i > 0 {
                assert(pv[i - 1].0 == page@.last().0);
            }
        }
        if page.len() == 0 {
            self.done = true;
        } else {
            self.done = false;
            self.marked = self.marked + keys.len() as u64;
            self.cursor = last;
        }
        Ok(keys)
    }
}

} // verus!
