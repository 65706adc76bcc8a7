//! Bulk synchronisation of a supplier's product feed into a product catalog.
//!
//! The library reads the feed as a stream of offers, checks each offer,
//! diffs accepted offers against the stored catalog rows chunk by chunk,
//! and, after the whole feed, finds the catalog rows that the feed no
//! longer lists. Talking to the store is left to the caller: each step
//! takes what the store returned and hands back what to write.

pub mod feed;
pub mod ingest;
pub mod num;
pub mod offer;
pub mod sweep;
pub mod sync;
pub mod text;

pub use num::{parse_category_id, parse_price, Price};
pub use offer::{convert_offer_to_product, Availability, NewProduct, Offer};
pub use feed::{feed_step, FeedError, FeedItem, FeedParser, Notice, OfferField, ParserContext, XmlEvent};
pub use ingest::{Ingestion, ProcessedStat, CHUNK_SIZE};
pub use sweep::{SeenIds, SweepError, SweepState};
pub use sync::{
    sync_products_chunk, ChunkPlan, FieldChange, ModProduct, ProcessedProducts, Product,
    SyncOptions,
};
