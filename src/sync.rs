//! The diff engine: decides, for a chunk of candidates and the catalog rows
//! that share their keys, what to update and what to insert.

use vstd::prelude::*;

use crate::num::Price;
use crate::offer::{clone_text, opt_view, Availability, NewProduct};

verus! {

/// chrono's timestamp, carried opaque from the caller into each update.
#[verifier::external_type_specification]
#[verifier::external_body]
pub struct ExNaiveDateTime(chrono::NaiveDateTime);

/// A stored catalog entry, as far as the diff reads it.
#[derive(Debug)]
pub struct Product {
    /// Assigned by the store; stable.
    pub id: i32,
    pub offer_id: String,
    /// The feed key; `None` for rows that no feed ever filled.
    pub hub_stock_id: Option<String>,
    pub category_id: i32,
    pub name: String,
    /// `None` where the stored amount is no decimal amount (negative,
    /// infinite or not a number); it then differs from every feed price.
    pub price: Option<Price>,
    pub oldprice: Option<Price>,
    pub currency_id: Option<String>,
    /// `None` where the stored state is unknown.
    pub available: Option<Availability>,
    pub description: Option<String>,
}

/// What the diff reads of a stored entry.
pub struct ProductView {
    pub id: i32,
    pub key: Option<Seq<char>>,
    pub price: Option<Price>,
    pub oldprice: Option<Price>,
    pub currency: Option<Seq<char>>,
    pub available: Option<Availability>,
}

impl View for Product {
    type V = ProductView;

    open spec fn view(&self) -> ProductView {
        ProductView {
            id: self.id,
            key: opt_view(self.hub_stock_id),
            price: self.price,
            oldprice: self.oldprice,
            currency: opt_view(self.currency_id),
            available: self.available,
        }
    }
}

/// What the diff reads of a candidate.
pub struct CandidateView {
    pub key: Seq<char>,
    pub price: Price,
    pub oldprice: Option<Price>,
    pub currency: Option<Seq<char>>,
    pub available: Availability,
}

impl View for NewProduct {
    type V = CandidateView;

    open spec fn view(&self) -> CandidateView {
        CandidateView {
            key: self.hub_stock_id@,
            price: self.price,
            oldprice: self.oldprice,
            currency: opt_view(self.currency_id),
            available: self.available,
        }
    }
}

pub open spec fn product_views(s: Seq<Product>) -> Seq<ProductView> {
    s.map_values(|p: Product| p@)
}

pub open spec fn candidate_views(s: Seq<NewProduct>) -> Seq<CandidateView> {
    s.map_values(|p: NewProduct| p@)
}

/// The change that a patch makes to one field.
#[derive(Clone, Copy, Debug, PartialEq, Eq)]
pub enum FieldChange<T> {
    Unchanged,
    SetTo(T),
    ClearToNull,
}

/// Sets a nullable field to `v`, clearing it where `v` is `None`.
pub open spec fn set_or_clear<T>(v: Option<T>) -> FieldChange<T> {
    match v {
        Some(x) => FieldChange::SetTo(x),
        None => FieldChange::ClearToNull,
    }
}

/// An update of one stored entry. Every update also stamps the entry with
/// `renew_date` and marks it for renewal.
#[derive(Debug)]
pub struct ModProduct {
    pub id: i32,
    pub available: FieldChange<Availability>,
    pub price: FieldChange<Price>,
    pub oldprice: FieldChange<Price>,
    pub currency_id: FieldChange<String>,
    pub renew_date: chrono::NaiveDateTime,
}

pub struct PatchView {
    pub id: i32,
    pub available: FieldChange<Availability>,
    pub price: FieldChange<Price>,
    pub oldprice: FieldChange<Price>,
    pub currency: FieldChange<Seq<char>>,
}

impl View for ModProduct {
    type V = PatchView;

    open spec fn view(&self) -> PatchView {
        PatchView {
            id: self.id,
            available: self.available,
            price: self.price,
            oldprice: self.oldprice,
            currency: match self.currency_id {
                FieldChange::Unchanged => FieldChange::Unchanged,
                FieldChange::SetTo(s) => FieldChange::SetTo(s@),
                FieldChange::ClearToNull => FieldChange::ClearToNull,
            },
        }
    }
}

/// Which writes a run may make.
#[derive(Clone, Copy, Debug, PartialEq, Eq, Structural)]
pub struct SyncOptions {
    /// Write price, old price and currency.
    pub update_price: bool,
    /// Write availability.
    pub update_available: bool,
    /// Insert candidates that have no stored entry.
    pub insert_new: bool,
    /// After the feed, mark entries that it does not list as not available.
    pub mark_missing_unavailable: bool,
}

/// The last stored entry whose key is `key`; the store holds at most one.
pub open spec fn last_match(records: Seq<ProductView>, key: Seq<char>) -> Option<int>
    decreases records.len(),
{
    if records.len() == 0 {
        None
    } else if records.last().key == Some(key) {
        Some(records.len() - 1)
    } else {
        last_match(records.drop_last(), key)
    }
}

pub open spec fn avail_changed(c: CandidateView, f: ProductView) -> bool {
    f.available != Some(c.available)
}

pub open spec fn price_changed(c: CandidateView, f: ProductView) -> bool {
    Some(c.price) != f.price || c.oldprice != f.oldprice || c.currency != f.currency
}

/// How many candidates differ in availability from their stored entry.
pub open spec fn avail_changes(cands: Seq<CandidateView>, records: Seq<ProductView>) -> nat
    decreases cands.len(),
{
    if cands.len() == 0 {
        0
    } else {
        avail_changes(cands.drop_last(), records) + match last_match(records, cands.last().key) {
            Some(i) => if avail_changed(cands.last(), records[i]) {
                1nat
            } else {
                0nat
            },
            None => 0nat,
        }
    }
}

/// How many candidates differ in price, old price or currency from their
/// stored entry.
pub open spec fn price_changes(cands: Seq<CandidateView>, records: Seq<ProductView>) -> nat
    decreases cands.len(),
{
    if cands.len() == 0 {
        0
    } else {
        price_changes(cands.drop_last(), records) + match last_match(records, cands.last().key) {
            Some(i) => if price_changed(cands.last(), records[i]) {
                1nat
            } else {
                0nat
            },
            None => 0nat,
        }
    }
}

/// The candidates without a stored entry, in feed order.
pub open spec fn new_candidates(cands: Seq<CandidateView>, records: Seq<ProductView>) -> Seq<
    CandidateView,
>
    decreases cands.len(),
{
    if cands.len() == 0 {
        seq![]
    } else {
        let prev = new_candidates(cands.drop_last(), records);
        if last_match(records, cands.last().key) is None {
            prev.push(cands.last())
        } else {
            prev
        }
    }
}

/// The update that candidate `c` calls for under `opts`: the enabled
/// field groups that differ, or none.
pub open spec fn patch_for(c: CandidateView, records: Seq<ProductView>, opts: SyncOptions) -> Option<
    PatchView,
> {
    match last_match(records, c.key) {
        None => None,
        Some(i) => {
            let f = records[i];
            let a = opts.update_available && avail_changed(c, f);
            let p = opts.update_price && price_changed(c, f);
            if a || p {
                Some(
                    PatchView {
                        id: f.id,
                        available: if a {
                            FieldChange::SetTo(c.available)
                        } else {
                            FieldChange::Unchanged
                        },
                        price: if p {
                            FieldChange::SetTo(c.price)
                        } else {
                            FieldChange::Unchanged
                        },
                        oldprice: if p {
                            set_or_clear(c.oldprice)
                        } else {
                            FieldChange::Unchanged
                        },
                        currency: if p {
                            set_or_clear(c.currency)
                        } else {
                            FieldChange::Unchanged
                        },
                    },
                )
            } else {
                None
            }
        },
    }
}

/// The updates of a chunk, in feed order.
pub open spec fn planned_patches(
    cands: Seq<CandidateView>,
    records: Seq<ProductView>,
    opts: SyncOptions,
) -> Seq<PatchView>
    decreases cands.len(),
{
    if cands.len() == 0 {
        seq![]
    } else {
        let prev = planned_patches(cands.drop_last(), records, opts);
        match patch_for(cands.last(), records, opts) {
            Some(pv) => prev.push(pv),
            None => prev,
        }
    }
}

pub proof fn lemma_change_counts_bounded(cands: Seq<CandidateView>, records: Seq<ProductView>)
    ensures
        avail_changes(cands, records) <= cands.len(),
        price_changes(cands, records) <= cands.len(),
        new_candidates(cands, records).len() <= cands.len(),
    decreases cands.len(),
{
    if cands.len() > 0 {
        lemma_change_counts_bounded(cands.drop_last(), records);
    }
}

/// What one chunk comes to: per-chunk counters, which do not depend on the
/// write options.
#[derive(Clone, Copy, Debug, PartialEq, Eq, Structural)]
pub struct ProcessedProducts {
    /// Candidates whose price, old price or currency differ from the store.
    pub updated_price: u64,
    /// Candidates whose availability differs from the store.
    pub updated_available: u64,
    /// Candidates without a stored entry, inserted or not.
    pub inserted: u64,
}

/// The writes that one chunk calls for: at most one batch of updates and
/// one batch of inserts.
#[derive(Debug)]
pub struct ChunkPlan {
    pub updates: Vec<ModProduct>,
    pub inserts: Vec<NewProduct>,
    pub stat: ProcessedProducts,
}

pub open spec fn patch_views(s: Seq<ModProduct>) -> Seq<PatchView> {
    s.map_values(|m: ModProduct| m@)
}

/// The index of the last stored entry whose key is `key`.
fn find_record(records: &Vec<Product>, key: &String) -> (r: Option<usize>)
    ensures
        match r {
            Some(i) => i < records@.len() && last_match(product_views(records@), key@) == Some(
                i as int,
            ),
            None => last_match(product_views(records@), key@) is None,
        },
{
    let ghost recs = product_views(records@);
    let mut found: Option<usize> = None;
    let mut i: usize = 0;
    while i < records.len()
        invariant
            recs == product_views(records@),
            i <= records@.len(),
            match found {
                Some(f) => f < i && last_match(recs.take(i as int), key@) == Some(f as int),
                None => last_match(recs.take(i as int), key@) is None,
            },
        decreases records@.len() - i,
    {
        proof {
            assert(recs.take(i as int + 1).drop_last() =~= recs.take(i as int));
            assert(recs.take(i as int + 1).last() == records@[i as int]@);
        }
        let hit = match &records[i].hub_stock_id {
            Some(h) => *h == *key,
            None => false,
        };
        if hit {
            found = Some(i);
        }
        i = i + 1;
    }
    proof {
        assert(recs.take(i as int) =~= recs);
    }
    found
}

fn same_price(a: &Option<Price>, b: &Option<Price>) -> (r: bool)
    ensures
        r == (*a == *b),
{
    match (a, b) {
        (Some(x), Some(y)) => *x == *y,
        (None, None) => true,
        _ => false,
    }
}

fn same_text(a: &Option<String>, b: &Option<String>) -> (r: bool)
    ensures
        r == (opt_view(*a) == opt_view(*b)),
{
    match (a, b) {
        (Some(x), Some(y)) => *x == *y,
        (None, None) => true,
        _ => false,
    }
}

fn set_or_clear_text(v: &Option<String>) -> (r: FieldChange<String>)
    ensures
        match (r, set_or_clear(opt_view(*v))) {
            (FieldChange::SetTo(s), FieldChange::SetTo(t)) => s@ == t,
            (FieldChange::ClearToNull, FieldChange::ClearToNull) => true,
            _ => false,
        },
{
    match v {
        Some(s) => FieldChange::SetTo(s.clone()),
        None => FieldChange::ClearToNull,
    }
}

/// Diffs a chunk of candidates against the stored entries that share their
/// keys. Every candidate is counted as changed in availability, changed in
/// price, or new, whatever the options; updates and inserts are planned
/// only for the field groups and rows that the options enable.
pub fn sync_products_chunk(
    parsed_products: &Vec<NewProduct>,
    found_products: &Vec<Product>,
    opts: SyncOptions,
    date_modified: chrono::NaiveDateTime,
) -> (r: ChunkPlan)
    ensures
        patch_views(r.updates@) == planned_patches(
            candidate_views(parsed_products@),
            product_views(found_products@),
            opts,
        ),
        forall|i: int| 0 <= i < r.updates@.len() ==> #[trigger] r.updates@[i].renew_date == date_modified,
        opts.insert_new ==> candidate_views(r.inserts@) == new_candidates(
            candidate_views(parsed_products@),
            product_views(found_products@),
        ),
        !opts.insert_new ==> r.inserts@.len() == 0,
        r.stat.updated_price == price_changes(
            candidate_views(parsed_products@),
            product_views(found_products@),
        ),
        r.stat.updated_available == avail_changes(
            candidate_views(parsed_products@),
            product_views(found_products@),
        ),
        r.stat.inserted == new_candidates(
            candidate_views(parsed_products@),
            product_views(found_products@),
        ).len(),
{
    let ghost cands = candidate_views(parsed_products@);
    let ghost recs = product_views(found_products@);
    let mut updates: Vec<ModProduct> = Vec::new();
    let mut inserts: Vec<NewProduct> = Vec::new();
    let mut stat = ProcessedProducts { updated_price: 0, updated_available: 0, inserted: 0 };
    let mut i: usize = 0;
    while i < parsed_products.len()
        invariant
            cands == candidate_views(parsed_products@),
            recs == product_views(found_products@),
            i <= parsed_products@.len(),
            patch_views(updates@) == planned_patches(cands.take(i as int), recs, opts),
            forall|k: int| 0 <= k < updates@.len() ==> #[trigger] updates@[k].renew_date == date_modified,
            opts.insert_new ==> candidate_views(inserts@) == new_candidates(cands.take(i as int), recs),
            !opts.insert_new ==> inserts@.len() == 0,
            stat.updated_price == price_changes(cands.take(i as int), recs),
            stat.updated_available == avail_changes(cands.take(i as int), recs),
            stat.inserted == new_candidates(cands.take(i as int), recs).len(),
        decreases parsed_products@.len() - i,
    {
        let ghost t = cands.take(i as int + 1);
        proof {
            assert(t.drop_last() =~= cands.take(i as int));
            assert(t.last() == parsed_products@[i as int]@);
            lemma_change_counts_bounded(cands.take(i as int), recs);
        }
        let p = &parsed_products[i];
        match find_record(found_products, &p.hub_stock_id) {
            Some(j) => {
                let f = &found_products[j];
                let a_changed = match f.available {
                    Some(a) => a != p.available,
                    None => true,
                };
                let p_changed = !same_price(&Some(p.price), &f.price) || !same_price(&p.oldprice, &f.oldprice)
                    || !same_text(&p.currency_id, &f.currency_id);
                if a_changed {
                    stat.updated_available = stat.updated_available + 1;
                }
                if p_changed {
                    stat.updated_price = stat.updated_price + 1;
                }
                let set_available = opts.update_available && a_changed;
                let set_price = opts.update_price && p_changed;
                if set_available || set_price {
                    let patch = ModProduct {
                        id: f.id,
                        available: if set_available {
                            FieldChange::SetTo(p.available)
                        } else {
                            FieldChange::Unchanged
                        },
                        price: if set_price {
                            FieldChange::SetTo(p.price)
                        } else {
                            FieldChange::Unchanged
                        },
                        oldprice: if set_price {
                            match p.oldprice {
                                Some(o) => FieldChange::SetTo(o),
                                None => FieldChange::ClearToNull,
                            }
                        } else {
                            FieldChange::Unchanged
                        },
                        currency_id: if set_price {
                            set_or_clear_text(&p.currency_id)
                        } else {
                            FieldChange::Unchanged
                        },
                        renew_date: date_modified,
                    };
                    updates.push(patch);
                }
            },
            None => {
                stat.inserted = stat.inserted + 1;
                if opts.insert_new {
                    inserts.push(p.clone());
                }
            },
        }
        i = i + 1;
    }
    proof {
        assert(cands.take(i as int) =~= cands);
    }
    ChunkPlan { updates, inserts, stat }
}

/// A difference in price is counted whatever the options say, and the
/// planned update writes the price only where price updates are enabled.
pub proof fn lemma_price_difference_counted_regardless_of_options(
    c: CandidateView,
    records: Seq<ProductView>,
    opts: SyncOptions,
)
    requires
        last_match(records, c.key) matches Some(i) && records[i].price != Some(c.price),
    ensures
        price_changes(seq![c], records) == 1,
        (patch_for(c, records, opts) matches Some(pv) && pv.price == FieldChange::SetTo(c.price))
            <==> opts.update_price,
{
    assert(seq![c].drop_last() =~= Seq::<CandidateView>::empty());
    assert(seq![c].last() == c);
    assert(price_changes(Seq::<CandidateView>::empty(), records) == 0);
    assert(price_changed(c, records[last_match(records, c.key).unwrap()]));
}

/// A nullable field after a change.
pub open spec fn changed_opt<T>(v: Option<T>, ch: FieldChange<T>) -> Option<T> {
    match ch {
        FieldChange::Unchanged => v,
        FieldChange::SetTo(x) => Some(x),
        FieldChange::ClearToNull => None,
    }
}

/// Entry `f` after the update `pv`, which touches it only where the ids agree.
pub open spec fn apply_patch(f: ProductView, pv: PatchView) -> ProductView {
    if pv.id != f.id {
        f
    } else {
        ProductView {
            id: f.id,
            key: f.key,
            price: match pv.price {
                FieldChange::SetTo(p) => Some(p),
                _ => f.price,
            },
            oldprice: changed_opt(f.oldprice, pv.oldprice),
            currency: changed_opt(f.currency, pv.currency),
            available: changed_opt(f.available, pv.available),
        }
    }
}

/// Entry `f` after the updates `patches`, in order.
pub open spec fn apply_patches(f: ProductView, patches: Seq<PatchView>) -> ProductView
    decreases patches.len(),
{
    if patches.len() == 0 {
        f
    } else {
        apply_patch(apply_patches(f, patches.drop_last()), patches.last())
    }
}

/// The entry that inserting candidate `c` makes, with the id the store gave it.
pub open spec fn inserted_view(c: CandidateView, id: i32) -> ProductView {
    ProductView {
        id,
        key: Some(c.key),
        price: Some(c.price),
        oldprice: c.oldprice,
        currency: c.currency,
        available: Some(c.available),
    }
}

/// `after` is the store `before` once `patches` and `inserts` are written:
/// every entry updated, the new entries after the old ones.
pub open spec fn store_after_plan(
    before: Seq<ProductView>,
    patches: Seq<PatchView>,
    inserts: Seq<CandidateView>,
    after: Seq<ProductView>,
) -> bool {
    &&& after.len() == before.len() + inserts.len()
    &&& forall|i: int| 0 <= i < before.len() ==> after[i] == apply_patches(before[i], patches)
    &&& forall|k: int|
        0 <= k < inserts.len() ==> after[before.len() + k] == inserted_view(
            inserts[k],
            after[before.len() + k].id,
        )
}

pub open spec fn distinct_keys(cands: Seq<CandidateView>) -> bool {
    forall|i: int, j: int| 0 <= i < j < cands.len() ==> cands[i].key != cands[j].key
}

pub open spec fn distinct_ids(records: Seq<ProductView>) -> bool {
    forall|i: int, j: int| 0 <= i < j < records.len() ==> records[i].id != records[j].id
}

pub open spec fn agrees(c: CandidateView, f: ProductView) -> bool {
    !avail_changed(c, f) && !price_changed(c, f)
}

proof fn lemma_last_match_props(records: Seq<ProductView>, key: Seq<char>)
    ensures
        match last_match(records, key) {
            Some(r) => 0 <= r < records.len() && records[r].key == Some(key) && forall|j: int|
                r < j < records.len() ==> records[j].key != Some(key),
            None => forall|j: int| 0 <= j < records.len() ==> records[j].key != Some(key),
        },
    decreases records.len(),
{
    if records.len() > 0 {
        let prev = records.drop_last();
        lemma_last_match_props(prev, key);
        assert forall|j: int| 0 <= j < prev.len() implies prev[j] == records[j] by {}
    }
}

proof fn lemma_last_match_from_props(records: Seq<ProductView>, key: Seq<char>, r: int)
    requires
        0 <= r < records.len(),
        records[r].key == Some(key),
        forall|j: int| r < j < records.len() ==> records[j].key != Some(key),
    ensures
        last_match(records, key) == Some(r),
{
    lemma_last_match_props(records, key);
    match last_match(records, key) {
        Some(r2) => {
            if r2 > r {
                assert(records[r2].key != Some(key));
            } else if r2 < r {
                assert(records[r].key != Some(key));
            }
        },
        None => {
            assert(records[r].key != Some(key));
        },
    }
}

proof fn lemma_patches_come_from_candidates(
    cands: Seq<CandidateView>,
    records: Seq<ProductView>,
    opts: SyncOptions,
)
    ensures
        forall|p: int|
            0 <= p < planned_patches(cands, records, opts).len() ==> exists|m: int|
                0 <= m < cands.len() && patch_for(cands[m], records, opts) == Some(
                    #[trigger] planned_patches(cands, records, opts)[p],
                ),
    decreases cands.len(),
{
    if cands.len() > 0 {
        let prev = cands.drop_last();
        lemma_patches_come_from_candidates(prev, records, opts);
        assert forall|p: int|
            0 <= p < planned_patches(cands, records, opts).len() implies exists|m: int|
                0 <= m < cands.len() && patch_for(cands[m], records, opts) == Some(
                    #[trigger] planned_patches(cands, records, opts)[p],
                ) by {
            if p < planned_patches(prev, records, opts).len() {
                let m = choose|m: int|
                    0 <= m < prev.len() && patch_for(prev[m], records, opts) == Some(
                        #[trigger] planned_patches(prev, records, opts)[p],
                    );
                assert(cands[m] == prev[m]);
            } else {
                assert(patch_for(cands[cands.len() - 1], records, opts) == Some(
                    planned_patches(cands, records, opts)[p],
                ));
            }
        }
    }
}

/// Under all write options, entry `i` ends up agreeing with the candidate
/// whose key it holds, and untouched where no candidate holds its key.
proof fn lemma_patched_entry(
    cands: Seq<CandidateView>,
    before: Seq<ProductView>,
    opts: SyncOptions,
    i: int,
)
    requires
        opts.update_price && opts.update_available,
        distinct_keys(cands),
        distinct_ids(before),
        0 <= i < before.len(),
    ensures
        ({
            let x = apply_patches(before[i], planned_patches(cands, before, opts));
            &&& x.id == before[i].id
            &&& x.key == before[i].key
            &&& forall|m: int|
                0 <= m < cands.len() && last_match(before, cands[m].key) == Some(i) ==> agrees(
                    #[trigger] cands[m],
                    x,
                )
            &&& (forall|m: int|
                0 <= m < cands.len() ==> last_match(before, #[trigger] cands[m].key) != Some(i))
                ==> x == before[i]
        }),
    decreases cands.len(),
{
    if cands.len() > 0 {
        let prev = cands.drop_last();
        let c = cands.last();
        assert(distinct_keys(prev));
        lemma_patched_entry(prev, before, opts, i);
        let xp = apply_patches(before[i], planned_patches(prev, before, opts));
        let x = apply_patches(before[i], planned_patches(cands, before, opts));
        match patch_for(c, before, opts) {
            Some(pv) => {
                assert(planned_patches(cands, before, opts).drop_last() == planned_patches(prev, before, opts));
                assert(x == apply_patch(xp, pv));
            },
            None => {
                assert(x == xp);
            },
        }
        lemma_last_match_props(before, c.key);
        if last_match(before, c.key) == Some(i) {
            assert forall|m: int| 0 <= m < prev.len() implies last_match(before, #[trigger] prev[m].key) != Some(i) by {
                assert(prev[m] == cands[m]);
                assert(cands[m].key != cands[cands.len() - 1].key);
                lemma_last_match_props(before, prev[m].key);
            }
            assert(xp == before[i]);
        } else {
            match last_match(before, c.key) {
                Some(i2) => {
                    assert(before[i2].id != before[i].id);
                },
                None => {},
            }
        }
        assert forall|m: int|
            0 <= m < cands.len() && last_match(before, cands[m].key) == Some(i) implies agrees(
                #[trigger] cands[m],
                x,
            ) by {
            if m < prev.len() {
                assert(prev[m] == cands[m]);
            }
        }
        if forall|m: int|
            0 <= m < cands.len() ==> last_match(before, #[trigger] cands[m].key) != Some(i) {
            assert forall|m: int| 0 <= m < prev.len() implies last_match(before, #[trigger] prev[m].key) != Some(i) by {
                assert(prev[m] == cands[m]);
            }
            assert(last_match(before, cands[cands.len() - 1].key) != Some(i));
        }
    }
}

proof fn lemma_new_candidates_props(cands: Seq<CandidateView>, records: Seq<ProductView>)
    requires
        distinct_keys(cands),
    ensures
        forall|idx: int|
            0 <= idx < new_candidates(cands, records).len() ==> exists|m: int|
                0 <= m < cands.len() && #[trigger] new_candidates(cands, records)[idx] == cands[m],
        forall|m: int|
            0 <= m < cands.len() && last_match(records, cands[m].key) is None ==> exists|idx: int|
                0 <= idx < new_candidates(cands, records).len() && #[trigger] new_candidates(
                    cands,
                    records,
                )[idx] == #[trigger] cands[m],
        distinct_keys(new_candidates(cands, records)),
        forall|idx: int|
            0 <= idx < new_candidates(cands, records).len() ==> last_match(
                records,
                #[trigger] new_candidates(cands, records)[idx].key,
            ) is None,
    decreases cands.len(),
{
    if cands.len() > 0 {
        let prev = cands.drop_last();
        let c = cands.last();
        let ip = new_candidates(prev, records);
        let ins = new_candidates(cands, records);
        assert(distinct_keys(prev));
        lemma_new_candidates_props(prev, records);
        assert forall|idx: int| 0 <= idx < ins.len() implies exists|m: int|
            0 <= m < cands.len() && #[trigger] ins[idx] == cands[m] by {
            if idx < ip.len() {
                let m = choose|m: int| 0 <= m < prev.len() && #[trigger] ip[idx] == prev[m];
                assert(cands[m] == prev[m]);
            } else {
                assert(ins[idx] == cands[cands.len() - 1]);
            }
        }
        assert forall|m: int|
            0 <= m < cands.len() && last_match(records, cands[m].key) is None implies exists|idx: int|
                0 <= idx < ins.len() && #[trigger] ins[idx] == #[trigger] cands[m] by {
            if m < prev.len() {
                assert(prev[m] == cands[m]);
                let idx = choose|idx: int| 0 <= idx < ip.len() && #[trigger] ip[idx] == #[trigger] prev[m];
                assert(ins[idx] == ip[idx]);
            } else {
                assert(ins[ins.len() - 1] == c);
            }
        }
        assert forall|idx: int| 0 <= idx < ins.len() implies last_match(records, #[trigger] ins[idx].key) is None by {
            if idx < ip.len() {
                assert(ins[idx] == ip[idx]);
            }
        }
        assert forall|a: int, b: int| 0 <= a < b < ins.len() implies ins[a].key != ins[b].key by {
            if b < ip.len() {
                assert(ins[a] == ip[a] && ins[b] == ip[b]);
            } else {
                let m = choose|m: int| 0 <= m < prev.len() && #[trigger] ip[a] == prev[m];
                assert(ins[a] == ip[a]);
                assert(prev[m] == cands[m]);
                assert(ins[b] == c);
            }
        }
    }
}

proof fn lemma_counts_zero_when_all_agree(cands: Seq<CandidateView>, records: Seq<ProductView>)
    requires
        forall|m: int|
            0 <= m < cands.len() ==> (last_match(records, #[trigger] cands[m].key) matches Some(j)
                && agrees(cands[m], records[j])),
    ensures
        price_changes(cands, records) == 0,
        avail_changes(cands, records) == 0,
        new_candidates(cands, records).len() == 0,
    decreases cands.len(),
{
    if cands.len() > 0 {
        let prev = cands.drop_last();
        assert forall|m: int| 0 <= m < prev.len() implies (last_match(records, #[trigger] prev[m].key) matches Some(j)
            && agrees(prev[m], records[j])) by {
            assert(prev[m] == cands[m]);
        }
        lemma_counts_zero_when_all_agree(prev, records);
        assert(cands.last() == cands[cands.len() - 1]);
    }
}

/// Reconciliation settles the store: once a chunk's plan, made with every
/// write enabled, is written, diffing the same candidates again finds no
/// change and nothing new. Candidates' keys are taken distinct and stored
/// ids distinct, as a store keyed by id and a feed keyed by offer give them.
pub proof fn lemma_second_run_changes_nothing(
    cands: Seq<CandidateView>,
    before: Seq<ProductView>,
    opts: SyncOptions,
    after: Seq<ProductView>,
)
    requires
        opts.update_price && opts.update_available && opts.insert_new,
        distinct_keys(cands),
        distinct_ids(before),
        store_after_plan(
            before,
            planned_patches(cands, before, opts),
            new_candidates(cands, before),
            after,
        ),
    ensures
        price_changes(cands, after) == 0,
        avail_changes(cands, after) == 0,
        new_candidates(cands, after).len() == 0,
{
    let n = before.len() as int;
    let ins = new_candidates(cands, before);
    lemma_new_candidates_props(cands, before);
    assert forall|j: int| 0 <= j < n implies #[trigger] after[j].key == before[j].key by {
        lemma_patched_entry(cands, before, opts, j);
    }
    assert forall|m: int| 0 <= m < cands.len() implies (last_match(after, #[trigger] cands[m].key) matches Some(j)
        && agrees(cands[m], after[j])) by {
        let c = cands[m];
        lemma_last_match_props(before, c.key);
        match last_match(before, c.key) {
            Some(i) => {
                lemma_patched_entry(cands, before, opts, i);
                assert forall|j: int| i < j < after.len() implies after[j].key != Some(c.key) by {
                    if j < n {
                        assert(after[j].key == before[j].key);
                    } else {
                        assert(after[n + (j - n)] == inserted_view(ins[j - n], after[n + (j - n)].id));
                        assert(last_match(before, ins[j - n].key) is None);
                    }
                }
                lemma_last_match_from_props(after, c.key, i);
            },
            None => {
                let idx = choose|idx: int| 0 <= idx < ins.len() && #[trigger] ins[idx] == #[trigger] cands[m];
                assert(after[n + idx] == inserted_view(ins[idx], after[n + idx].id));
                assert forall|j: int| n + idx < j < after.len() implies after[j].key != Some(c.key) by {
                    assert(after[n + (j - n)] == inserted_view(ins[j - n], after[n + (j - n)].id));
                    assert(ins[j - n].key != ins[idx].key);
                }
                lemma_last_match_from_props(after, c.key, n + idx);
            },
        }
    }
    lemma_counts_zero_when_all_agree(cands, after);
}

} // verus!
