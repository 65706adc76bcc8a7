//! The ingestion loop's state: counters, the chunk being filled, and the
//! keys seen, between the feed reader and the diff engine.

use vstd::prelude::*;

use crate::offer::{convert_offer_to_product, product_of, NewProduct, Offer};
use crate::sweep::{seen_ids, SeenIds};
use crate::sync::{
    avail_changes, candidate_views, lemma_change_counts_bounded, new_candidates, patch_views,
    planned_patches, price_changes, product_views, sync_products_chunk, ChunkPlan, Product, SyncOptions,
};

verus! {

/// The size of a chunk where the caller sets none.
pub const CHUNK_SIZE: usize = 1000;

/// The counters of a whole run.
#[derive(Clone, Copy, Debug, PartialEq, Eq, Structural)]
pub struct ProcessedStat {
    /// Offers with an identifier.
    pub total_offers: u64,
    /// Offers without name, category or price.
    pub ignored_offers: u64,
    /// Offers that became candidates.
    pub parsed_offers: u64,
    pub updated_price: u64,
    pub updated_available: u64,
    pub inserted_products: u64,
    pub marked_as_unavailable: u64,
}

/// How many candidates wait in the chunk, and the sizes of the chunks
/// handed to the diff engine so far.
pub struct ChunkCounts {
    pub pending: nat,
    pub batches: Seq<nat>,
}

/// One more candidate joins the chunk.
pub open spec fn counts_after_accept(v: ChunkCounts) -> ChunkCounts {
    ChunkCounts { pending: v.pending + 1, batches: v.batches }
}

/// The chunk is handed to the diff engine.
pub open spec fn counts_after_sync(v: ChunkCounts) -> ChunkCounts {
    ChunkCounts { pending: 0, batches: v.batches.push(v.pending) }
}

/// `k` more candidates arrive with chunk size `c`: a full chunk is handed
/// over at once, and what is left at the end of the feed last.
pub open spec fn counts_after_feed(v: ChunkCounts, k: nat, c: nat) -> ChunkCounts
    decreases k,
{
    if k == 0 {
        if v.pending > 0 {
            counts_after_sync(v)
        } else {
            v
        }
    } else {
        let v1 = counts_after_accept(v);
        counts_after_feed(
            if v1.pending == c {
                counts_after_sync(v1)
            } else {
                v1
            },
            (k - 1) as nat,
            c,
        )
    }
}

proof fn lemma_accepts_below_chunk(v: ChunkCounts, j: nat, k: nat, c: nat)
    requires
        v.pending + j < c,
        j <= k,
    ensures
        counts_after_feed(v, k, c) == counts_after_feed(
            ChunkCounts { pending: v.pending + j, batches: v.batches },
            (k - j) as nat,
            c,
        ),
    decreases j,
{
    if j > 0 {
        let v1 = counts_after_accept(v);
        lemma_accepts_below_chunk(v1, (j - 1) as nat, (k - 1) as nat, c);
    } else {
        assert(ChunkCounts { pending: v.pending + j, batches: v.batches } == v);
    }
}

/// With chunk size `c`, a feed of `c + 1` accepted offers makes exactly two
/// chunks: one of `c` candidates, then one of a single candidate.
pub proof fn lemma_one_over_chunk_size_makes_two_chunks(c: nat)
    requires
        c > 0,
    ensures
        counts_after_feed(ChunkCounts { pending: 0, batches: seq![] }, c + 1, c).batches
            == seq![c, 1nat],
{
    let start = ChunkCounts { pending: 0, batches: seq![] };
    lemma_accepts_below_chunk(start, (c - 1) as nat, c + 1, c);
    let v = ChunkCounts { pending: (c - 1) as nat, batches: seq![] };
    let v1 = counts_after_sync(counts_after_accept(v));
    assert(v1.batches == seq![c]);
    let v2 = counts_after_accept(v1);
    assert(counts_after_feed(v, 2, c) == counts_after_feed(v1, 1, c));
    if c == 1 {
        assert(counts_after_feed(v1, 1, c) == counts_after_feed(counts_after_sync(v2), 0, c));
        assert(counts_after_sync(v2).batches =~= seq![c, 1nat]);
    } else {
        assert(counts_after_feed(v1, 1, c) == counts_after_feed(v2, 0, c));
        assert(counts_after_sync(v2).batches =~= seq![c, 1nat]);
    }
}

/// How many of `offers` lack a name, a category or a price.
pub open spec fn incomplete_count(offers: Seq<Offer>) -> nat
    decreases offers.len(),
{
    if offers.len() == 0 {
        0
    } else {
        incomplete_count(offers.drop_last()) + if offers.last().is_complete() {
            0nat
        } else {
            1nat
        }
    }
}

/// `cands` are the candidates of the complete offers among `offers`, one
/// each, in order.
pub open spec fn candidates_of(offers: Seq<Offer>, cands: Seq<NewProduct>) -> bool
    decreases offers.len(),
{
    if offers.len() == 0 {
        cands.len() == 0
    } else if offers.last().is_complete() {
        cands.len() > 0 && product_of(offers.last(), cands.last()) && candidates_of(
            offers.drop_last(),
            cands.drop_last(),
        )
    } else {
        candidates_of(offers.drop_last(), cands)
    }
}

/// The state of the ingestion loop: the chunk being filled, the counters,
/// and, where the sweep will run, the keys seen.
pub struct Ingestion {
    chunk_size: usize,
    bucket: Vec<NewProduct>,
    seen: SeenIds,
    track_seen: bool,
    stat: ProcessedStat,
    flushed: u64,
    batches: Ghost<Seq<nat>>,
    handed: Ghost<Seq<NewProduct>>,
    offers: Ghost<Seq<Offer>>,
}

impl Ingestion {
    pub closed spec fn chunk_size(&self) -> nat {
        self.chunk_size as nat
    }

    /// The candidates that wait for the next chunk.
    pub closed spec fn pending(&self) -> Seq<NewProduct> {
        self.bucket@
    }

    pub closed spec fn seen(&self) -> Set<Seq<char>> {
        seen_ids(self.seen)
    }

    pub closed spec fn tracks_seen(&self) -> bool {
        self.track_seen
    }

    pub closed spec fn stat(&self) -> ProcessedStat {
        self.stat
    }

    /// The sizes of the chunks handed to the diff engine so far.
    pub closed spec fn batches(&self) -> Seq<nat> {
        self.batches@
    }

    /// The candidates handed to the diff engine so far, chunk after chunk.
    pub closed spec fn handed(&self) -> Seq<NewProduct> {
        self.handed@
    }

    /// The offers counted so far, in feed order.
    pub closed spec fn offers(&self) -> Seq<Offer> {
        self.offers@
    }

    /// The counters and the chunks agree with the offers counted: the
    /// incomplete ones are exactly the ignored ones, and the candidates
    /// handed over, then those waiting, are those of the complete ones, in
    /// order.
    pub open spec fn tallies_offers(&self) -> bool {
        &&& self.stat().total_offers == self.offers().len()
        &&& self.stat().ignored_offers == incomplete_count(self.offers())
        &&& candidates_of(self.offers(), self.handed() + self.pending())
    }

    pub open spec fn counts(&self) -> ChunkCounts {
        ChunkCounts { pending: self.pending().len(), batches: self.batches() }
    }

    pub closed spec fn wf(&self) -> bool {
        &&& self.chunk_size > 0
        &&& self.bucket@.len() <= self.chunk_size
        &&& self.stat.parsed_offers + self.stat.ignored_offers == self.stat.total_offers
        &&& self.flushed + self.bucket@.len() == self.stat.parsed_offers
        &&& self.stat.updated_price <= self.flushed
        &&& self.stat.updated_available <= self.flushed
        &&& self.stat.inserted_products <= self.flushed
        &&& self.stat.marked_as_unavailable == 0
        &&& self.tallies_offers()
    }

    /// A loop with chunks of `chunk_size` candidates that records the keys
    /// it sees where `track_seen` asks for it.
    pub fn new(chunk_size: usize, track_seen: bool) -> (r: Ingestion)
        requires
            chunk_size > 0,
        ensures
            r.wf(),
            r.chunk_size() == chunk_size,
            r.tracks_seen() == track_seen,
            r.pending().len() == 0,
            r.seen() == Set::<Seq<char>>::empty(),
            r.stat() == (ProcessedStat {
                total_offers: 0,
                ignored_offers: 0,
                parsed_offers: 0,
                updated_price: 0,
                updated_available: 0,
                inserted_products: 0,
                marked_as_unavailable: 0,
            }),
            r.batches().len() == 0,
            r.handed().len() == 0,
            r.offers().len() == 0,
            r.tallies_offers(),
    {
        Ingestion {
            chunk_size,
            bucket: Vec::new(),
            seen: SeenIds::new(),
            track_seen,
            stat: ProcessedStat {
                total_offers: 0,
                ignored_offers: 0,
                parsed_offers: 0,
                updated_price: 0,
                updated_available: 0,
                inserted_products: 0,
                marked_as_unavailable: 0,
            },
            flushed: 0,
            batches: Ghost(Seq::empty()),
            handed: Ghost(Seq::empty()),
            offers: Ghost(Seq::empty()),
        }
    }

    /// Whether the chunk is full and must go to the diff engine before the
    /// next offer.
    pub fn is_full(&self) -> (r: bool)
        requires
            self.wf(),
        ensures
            r == (self.pending().len() == self.chunk_size()),
    {
        self.bucket.len() == self.chunk_size
    }

    /// Whether another offer can be counted.
    pub fn has_room(&self) -> (r: bool)
        ensures
            r == (self.stat().total_offers < u64::MAX),
    {
        self.stat.total_offers < u64::MAX
    }

    /// The candidates that wait for the next chunk.
    pub fn pending_products(&self) -> (r: &Vec<NewProduct>)
        ensures
            r@ == self.pending(),
    {
        &self.bucket
    }

    /// The keys seen so far.
    pub fn seen_ids(&self) -> (r: &SeenIds)
        ensures
            seen_ids(*r) == self.seen(),
    {
        &self.seen
    }

    /// The counters so far.
    pub fn current_stat(&self) -> (r: ProcessedStat)
        ensures
            r == self.stat(),
    {
        self.stat
    }

    /// Counts an offer and, where it is complete, adds its candidate to the
    /// chunk (and its key to the keys seen). An incomplete offer counts as
    /// ignored and changes nothing else. Returns whether the chunk is now
    /// full.
    pub fn accept_offer(&mut self, offer: Offer) -> (full: bool)
        requires
            old(self).wf(),
            old(self).pending().len() < old(self).chunk_size(),
            old(self).stat().total_offers < u64::MAX,
        ensures
            final(self).wf(),
            final(self).tallies_offers(),
            final(self).chunk_size() == old(self).chunk_size(),
            final(self).tracks_seen() == old(self).tracks_seen(),
            full == (final(self).pending().len() == final(self).chunk_size()),
            final(self).stat().total_offers == old(self).stat().total_offers + 1,
            final(self).stat().updated_price == old(self).stat().updated_price,
            final(self).stat().updated_available == old(self).stat().updated_available,
            final(self).stat().inserted_products == old(self).stat().inserted_products,
            final(self).handed() == old(self).handed(),
            final(self).batches() == old(self).batches(),
            final(self).offers() == old(self).offers().push(offer),
            offer.is_complete() ==> {
                &&& final(self).stat().parsed_offers == old(self).stat().parsed_offers + 1
                &&& final(self).stat().ignored_offers == old(self).stat().ignored_offers
                &&& final(self).pending().len() == old(self).pending().len() + 1
                &&& final(self).pending().drop_last() == old(self).pending()
                &&& product_of(offer, final(self).pending().last())
                &&& final(self).counts() == counts_after_accept(old(self).counts())
                &&& final(self).seen() == if old(self).tracks_seen() {
                    old(self).seen().insert(offer.offer_id@)
                } else {
                    old(self).seen()
                }
            },
            !offer.is_complete() ==> {
                &&& final(self).stat().parsed_offers == old(self).stat().parsed_offers
                &&& final(self).stat().ignored_offers == old(self).stat().ignored_offers + 1
                &&& final(self).pending() == old(self).pending()
                &&& final(self).counts() == old(self).counts()
                &&& final(self).seen() == old(self).seen()
            },
    {
        let ghost o = offer;
        let ghost offers = self.offers@.push(o);
        self.offers = Ghost(offers);
        self.stat.total_offers = self.stat.total_offers + 1;
        match convert_offer_to_product(offer) {
            Some(product) => {
                if self.track_seen {
                    self.seen.insert(product.hub_stock_id.clone());
                }
                self.bucket.push(product);
                self.stat.parsed_offers = self.stat.parsed_offers + 1;
                proof {
                    assert(self.bucket@.drop_last() =~= old(self).bucket@);
                    assert(offers.drop_last() =~= old(self).offers@);
                    let all = self.handed@ + self.bucket@;
                    assert(all.drop_last() =~= old(self).handed@ + old(self).bucket@);
                    assert(all.last() == self.bucket@.last());
                }
            },
            None => {
                self.stat.ignored_offers = self.stat.ignored_offers + 1;
                proof {
                    assert(offers.drop_last() =~= old(self).offers@);
                }
            },
        }
        self.bucket.len() == self.chunk_size
    }

    /// Hands the waiting chunk to the diff engine with the stored entries
    /// that share its keys, adds the chunk's counters to the run's, and
    /// empties the chunk.
    pub fn sync_pending(
        &mut self,
        found_products: &Vec<Product>,
        opts: SyncOptions,
        date_modified: chrono::NaiveDateTime,
    ) -> (r: ChunkPlan)
        requires
            old(self).wf(),
        ensures
            final(self).wf(),
            final(self).tallies_offers(),
            final(self).chunk_size() == old(self).chunk_size(),
            final(self).tracks_seen() == old(self).tracks_seen(),
            final(self).seen() == old(self).seen(),
            final(self).pending().len() == 0,
            final(self).counts() == counts_after_sync(old(self).counts()),
            final(self).handed() == old(self).handed() + old(self).pending(),
            final(self).offers() == old(self).offers(),
            patch_views(r.updates@) == planned_patches(
                candidate_views(old(self).pending()),
                product_views(found_products@),
                opts,
            ),
            forall|i: int| 0 <= i < r.updates@.len() ==> #[trigger] r.updates@[i].renew_date == date_modified,
            opts.insert_new ==> candidate_views(r.inserts@) == new_candidates(
                candidate_views(old(self).pending()),
                product_views(found_products@),
            ),
            !opts.insert_new ==> r.inserts@.len() == 0,
            r.stat.updated_price == price_changes(
                candidate_views(old(self).pending()),
                product_views(found_products@),
            ),
            r.stat.updated_available == avail_changes(
                candidate_views(old(self).pending()),
                product_views(found_products@),
            ),
            r.stat.inserted == new_candidates(
                candidate_views(old(self).pending()),
                product_views(found_products@),
            ).len(),
            final(self).stat() == (ProcessedStat {
                updated_price: (old(self).stat().updated_price + r.stat.updated_price) as u64,
                updated_available: (old(self).stat().updated_available
                    + r.stat.updated_available) as u64,
                inserted_products: (old(self).stat().inserted_products + r.stat.inserted) as u64,
                ..old(self).stat()
            }),
    {
        let plan = sync_products_chunk(&self.bucket, found_products, opts, date_modified);
        proof {
            lemma_change_counts_bounded(
                candidate_views(self.bucket@),
                product_views(found_products@),
            );
        }
        let n = self.bucket.len() as u64;
        self.stat.updated_price = self.stat.updated_price + plan.stat.updated_price;
        self.stat.updated_available = self.stat.updated_available + plan.stat.updated_available;
        self.stat.inserted_products = self.stat.inserted_products + plan.stat.inserted;
        self.flushed = self.flushed + n;
        self.bucket = Vec::new();
        let ghost batches = self.batches@.push(n as nat);
        let ghost handed = self.handed@ + old(self).bucket@;
        self.batches = Ghost(batches);
        self.handed = Ghost(handed);
        proof {
            assert(self.handed@ + self.bucket@ =~= old(self).handed@ + old(self).bucket@);
        }
        plan
    }
}

} // verus!
