use chrono::NaiveDate;
use hubber_xml::{
    sync_products_chunk, Availability, FieldChange, FeedItem, FeedParser, Ingestion, ModProduct,
    NewProduct, Price, Product, SyncOptions,
};

fn date() -> chrono::NaiveDateTime {
    NaiveDate::from_ymd_opt(2020, 5, 17).unwrap().and_hms_opt(12, 0, 0).unwrap()
}

fn opts(update_price: bool, update_available: bool, insert_new: bool) -> SyncOptions {
    SyncOptions { update_price, update_available, insert_new, mark_missing_unavailable: false }
}

fn candidate(key: &str, price: u64, available: Availability) -> NewProduct {
    NewProduct {
        offer_id: key.to_string(),
        hub_stock_id: key.to_string(),
        category_id: 1,
        name: format!("product {}", key),
        price: Price { units: price, scale: 0 },
        oldprice: None,
        currency_id: Some("UAH".to_string()),
        available,
        description: None,
    }
}

fn record(id: i32, key: &str, price: u64, available: Availability) -> Product {
    Product {
        id,
        offer_id: key.to_string(),
        hub_stock_id: Some(key.to_string()),
        category_id: 1,
        name: format!("product {}", key),
        price: Some(Price { units: price, scale: 0 }),
        oldprice: None,
        currency_id: Some("UAH".to_string()),
        available: Some(available),
        description: None,
    }
}

fn apply(store: &mut Vec<Product>, updates: &[ModProduct], inserts: &[NewProduct]) {
    for u in updates {
        let r = store.iter_mut().find(|r| r.id == u.id).unwrap();
        match u.available {
            FieldChange::SetTo(a) => r.available = Some(a),
            FieldChange::ClearToNull => r.available = None,
            FieldChange::Unchanged => {}
        }
        if let FieldChange::SetTo(p) = u.price {
            r.price = Some(p);
        }
        match u.oldprice {
            FieldChange::SetTo(p) => r.oldprice = Some(p),
            FieldChange::ClearToNull => r.oldprice = None,
            FieldChange::Unchanged => {}
        }
        match &u.currency_id {
            FieldChange::SetTo(c) => r.currency_id = Some(c.clone()),
            FieldChange::ClearToNull => r.currency_id = None,
            FieldChange::Unchanged => {}
        }
    }
    for p in inserts {
        let id = store.iter().map(|r| r.id).max().unwrap_or(0) + 1;
        store.push(Product {
            id,
            offer_id: p.offer_id.clone(),
            hub_stock_id: Some(p.hub_stock_id.clone()),
            category_id: p.category_id,
            name: p.name.clone(),
            price: Some(p.price),
            oldprice: p.oldprice,
            currency_id: p.currency_id.clone(),
            available: Some(p.available),
            description: p.description.clone(),
        });
    }
}

#[test]
fn price_difference_counted_without_price_flag() {
    let cands = vec![candidate("A", 20, Availability::Available)];
    let found = vec![record(7, "A", 10, Availability::Available)];
    let plan = sync_products_chunk(&cands, &found, opts(false, true, true), date());
    assert_eq!(plan.stat.updated_price, 1);
    assert_eq!(plan.stat.updated_available, 0);
    assert!(plan.updates.is_empty());
}

#[test]
fn price_difference_written_with_price_flag() {
    let cands = vec![candidate("A", 20, Availability::Available)];
    let found = vec![record(7, "A", 10, Availability::Available)];
    let plan = sync_products_chunk(&cands, &found, opts(true, false, false), date());
    assert_eq!(plan.stat.updated_price, 1);
    assert_eq!(plan.updates.len(), 1);
    let u = &plan.updates[0];
    assert_eq!(u.id, 7);
    assert_eq!(u.price, FieldChange::SetTo(Price { units: 20, scale: 0 }));
    assert_eq!(u.oldprice, FieldChange::ClearToNull);
    assert_eq!(u.currency_id, FieldChange::SetTo("UAH".to_string()));
    assert_eq!(u.available, FieldChange::Unchanged);
    assert_eq!(u.renew_date, date());
}

#[test]
fn availability_change_gated_by_its_flag() {
    let cands = vec![candidate("A", 10, Availability::NotAvailable)];
    let found = vec![record(3, "A", 10, Availability::Available)];
    let off = sync_products_chunk(&cands, &found, opts(true, false, true), date());
    assert_eq!(off.stat.updated_available, 1);
    assert_eq!(off.stat.updated_price, 0);
    assert!(off.updates.is_empty());
    let on = sync_products_chunk(&cands, &found, opts(false, true, true), date());
    assert_eq!(on.updates.len(), 1);
    assert_eq!(on.updates[0].available, FieldChange::SetTo(Availability::NotAvailable));
    assert_eq!(on.updates[0].price, FieldChange::Unchanged);
}

#[test]
fn unchanged_record_gets_no_update() {
    let cands = vec![candidate("A", 10, Availability::Available)];
    let found = vec![record(3, "A", 10, Availability::Available)];
    let plan = sync_products_chunk(&cands, &found, opts(true, true, true), date());
    assert!(plan.updates.is_empty());
    assert!(plan.inserts.is_empty());
    assert_eq!(plan.stat.updated_price + plan.stat.updated_available + plan.stat.inserted, 0);
}

#[test]
fn new_candidates_counted_whether_inserted_or_not() {
    let cands = vec![candidate("N1", 1, Availability::Available), candidate("N2", 2, Availability::Available)];
    let found = vec![];
    let dry = sync_products_chunk(&cands, &found, opts(true, true, false), date());
    assert_eq!(dry.stat.inserted, 2);
    assert!(dry.inserts.is_empty());
    let wet = sync_products_chunk(&cands, &found, opts(true, true, true), date());
    assert_eq!(wet.stat.inserted, 2);
    assert_eq!(wet.inserts.len(), 2);
    assert_eq!(wet.inserts[0].hub_stock_id, "N1");
    assert_eq!(wet.inserts[1].hub_stock_id, "N2");
}

#[test]
fn unreadable_stored_price_counts_as_changed() {
    let cands = vec![candidate("A", 10, Availability::Available)];
    let mut r = record(4, "A", 10, Availability::Available);
    r.price = None;
    let plan = sync_products_chunk(&cands, &vec![r], opts(true, true, true), date());
    assert_eq!(plan.stat.updated_price, 1);
    assert_eq!(plan.updates[0].price, FieldChange::SetTo(Price { units: 10, scale: 0 }));
}

#[test]
fn duplicate_stored_key_uses_last_row() {
    let cands = vec![candidate("A", 10, Availability::Available)];
    let found = vec![record(1, "A", 99, Availability::Available), record(2, "A", 10, Availability::Available)];
    let plan = sync_products_chunk(&cands, &found, opts(true, true, true), date());
    assert_eq!(plan.stat.updated_price, 0);
    assert!(plan.updates.is_empty());
}

#[test]
fn record_without_key_never_matches() {
    let cands = vec![candidate("A", 10, Availability::Available)];
    let mut r = record(1, "A", 10, Availability::Available);
    r.hub_stock_id = None;
    let plan = sync_products_chunk(&cands, &vec![r], opts(true, true, true), date());
    assert_eq!(plan.stat.inserted, 1);
}

#[test]
fn second_run_with_all_writes_finds_nothing() {
    let cands = vec![
        candidate("A", 20, Availability::Available),
        candidate("B", 5, Availability::NotAvailable),
        candidate("C", 7, Availability::Available),
    ];
    let mut store = vec![
        record(1, "A", 10, Availability::Available),
        record(2, "B", 5, Availability::Available),
        record(3, "Z", 1, Availability::Available),
    ];
    let all = opts(true, true, true);
    let first = sync_products_chunk(&cands, &store, all, date());
    assert_eq!(first.stat.updated_price, 1);
    assert_eq!(first.stat.updated_available, 1);
    assert_eq!(first.stat.inserted, 1);
    apply(&mut store, &first.updates, &first.inserts);
    let second = sync_products_chunk(&cands, &store, all, date());
    assert_eq!(second.stat.updated_price, 0);
    assert_eq!(second.stat.updated_available, 0);
    assert_eq!(second.stat.inserted, 0);
    assert!(second.updates.is_empty());
    assert!(second.inserts.is_empty());
}

#[test]
fn chunk_size_plus_one_offers_make_two_chunks() {
    let chunk = 3;
    let mut ing = Ingestion::new(chunk, false);
    let mut batches = Vec::new();
    for i in 0..(chunk + 1) {
        let mut o = hubber_xml::Offer::new(format!("K{}", i), Some(Availability::Available));
        o.name = Some("n".to_string());
        o.category_id = Some(1);
        o.price = Some(Price { units: 1, scale: 0 });
        if ing.accept_offer(o) {
            batches.push(ing.pending_products().len());
            ing.sync_pending(&vec![], opts(false, false, false), date());
        }
    }
    if !ing.pending_products().is_empty() {
        batches.push(ing.pending_products().len());
        ing.sync_pending(&vec![], opts(false, false, false), date());
    }
    assert_eq!(batches, vec![chunk, 1]);
    assert_eq!(ing.current_stat().inserted_products, 4);
}

#[test]
fn incomplete_offer_counts_as_ignored() {
    let mut ing = Ingestion::new(10, true);
    let o = hubber_xml::Offer::new("X".to_string(), None);
    assert!(!ing.accept_offer(o));
    let s = ing.current_stat();
    assert_eq!(s.total_offers, 1);
    assert_eq!(s.ignored_offers, 1);
    assert_eq!(s.parsed_offers, 0);
    assert!(ing.pending_products().is_empty());
    assert!(!ing.seen_ids().contains(&"X".to_string()));
}

#[test]
fn feed_with_one_good_and_one_nameless_offer() {
    let xml = r#"<offers>
<offer id="A1" available="true"><price>10</price><name>Foo</name><categoryId>5</categoryId></offer>
<offer id="A2" available="true"><price>10</price><categoryId>5</categoryId></offer>
</offers>"#;
    let mut parser = FeedParser::new(xml.as_bytes());
    let mut ing = Ingestion::new(hubber_xml::CHUNK_SIZE, true);
    loop {
        match parser.advance().unwrap() {
            FeedItem::Offer(o) => {
                ing.accept_offer(o);
            }
            FeedItem::Finished => break,
            _ => {}
        }
    }
    let s = ing.current_stat();
    assert_eq!(s.total_offers, 2);
    assert_eq!(s.parsed_offers, 1);
    assert_eq!(s.ignored_offers, 1);
    assert!(ing.seen_ids().contains(&"A1".to_string()));
    assert!(!ing.seen_ids().contains(&"A2".to_string()));
    let plan = ing.sync_pending(&vec![], opts(true, true, true), date());
    assert_eq!(plan.inserts.len(), 1);
    assert_eq!(plan.inserts[0].hub_stock_id, "A1");
    assert_eq!(plan.inserts[0].price, Price { units: 10, scale: 0 });
    assert_eq!(ing.current_stat().inserted_products, 1);
}
