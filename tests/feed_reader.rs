use hubber_xml::{
    feed_step, Availability, FeedError, FeedItem, FeedParser, Notice, Offer, OfferField,
    ParserContext, Price, XmlEvent,
};

fn read_feed(xml: &str) -> (Vec<Offer>, Vec<Notice>, Option<FeedError>) {
    let mut parser = FeedParser::new(xml.as_bytes());
    let mut offers = Vec::new();
    let mut notices = Vec::new();
    loop {
        match parser.advance() {
            Ok(FeedItem::Offer(o)) => offers.push(o),
            Ok(FeedItem::Notice(n)) => notices.push(n),
            Ok(FeedItem::Nothing) => {}
            Ok(FeedItem::Finished) => return (offers, notices, None),
            Err(e) => return (offers, notices, Some(e)),
        }
    }
}

#[test]
fn reads_offer_fields() {
    let xml = r#"<?xml version="1.0"?>
<yml_catalog><shop><offers>
  <offer id="A1" available="true">
    <price>10.50</price>
    <oldprice>12</oldprice>
    <currencyId>USD</currencyId>
    <categoryId>5</categoryId>
    <name>Foo &amp; Bar</name>
    <description>Nice</description>
    <vendor>Acme</vendor>
    <vendorCode>X-1</vendorCode>
    <picture>http://example.com/a.png</picture>
  </offer>
</offers></shop></yml_catalog>"#;
    let (offers, notices, err) = read_feed(xml);
    assert!(err.is_none());
    assert!(notices.is_empty());
    assert_eq!(offers.len(), 1);
    let o = &offers[0];
    assert_eq!(o.offer_id, "A1");
    assert_eq!(o.available, Some(Availability::Available));
    assert_eq!(o.price, Some(Price { units: 105, scale: 1 }));
    assert_eq!(o.old_price, Some(Price { units: 12, scale: 0 }));
    assert_eq!(o.currency_id.as_deref(), Some("USD"));
    assert_eq!(o.category_id, Some(5));
    assert_eq!(o.name.as_deref(), Some("Foo & Bar"));
    assert_eq!(o.description.as_deref(), Some("Nice"));
    assert_eq!(o.vendor.as_deref(), Some("Acme"));
    assert_eq!(o.vendor_code.as_deref(), Some("X-1"));
}

#[test]
fn unparsable_scalars_leave_fields_empty() {
    let xml = r#"<offers><offer id="B" available="1"><price>abc</price><categoryId>x</categoryId><currencyId>GBP</currencyId><name>N</name></offer></offers>"#;
    let (offers, notices, err) = read_feed(xml);
    assert!(err.is_none());
    assert_eq!(offers.len(), 1);
    assert_eq!(offers[0].price, None);
    assert_eq!(offers[0].category_id, None);
    assert_eq!(offers[0].currency_id, None);
    assert_eq!(offers[0].name.as_deref(), Some("N"));
    assert_eq!(notices.len(), 3);
    match &notices[0] {
        Notice::FieldRejected { offer_id, field, value } => {
            assert_eq!(offer_id, "B");
            assert_eq!(*field, OfferField::Price);
            assert_eq!(value, "abc");
        }
        other => panic!("unexpected notice {:?}", other),
    }
}

#[test]
fn empty_currency_falls_back_to_home_currency() {
    let xml = r#"<offer id="C"><currencyId></currencyId></offer>"#;
    let (offers, _, err) = read_feed(xml);
    assert!(err.is_none());
    assert_eq!(offers[0].currency_id.as_deref(), Some("UAH"));
}

#[test]
fn offer_without_id_is_skipped_with_notice() {
    let xml = r#"<offers><offer available="true"><name>X</name></offer><offer id="D"/></offers>"#;
    let (offers, notices, err) = read_feed(xml);
    assert!(err.is_none());
    assert_eq!(offers.len(), 1);
    assert_eq!(offers[0].offer_id, "D");
    assert!(matches!(notices[0], Notice::OfferWithoutId));
}

#[test]
fn missing_availability_attribute_is_unspecified() {
    let (offers, _, _) = read_feed(r#"<offer id="E"></offer>"#);
    assert_eq!(offers[0].available, None);
}

#[test]
fn unknown_availability_aborts_the_run() {
    let xml = r#"<offers><offer id="A" available="1"></offer><offer id="B" available="maybe"></offer><offer id="C" available="1"></offer></offers>"#;
    let mut parser = FeedParser::new(xml.as_bytes());
    let mut offers = 0;
    let err = loop {
        match parser.advance() {
            Ok(FeedItem::Offer(_)) => offers += 1,
            Ok(FeedItem::Finished) => panic!("feed should fail"),
            Ok(_) => {}
            Err(e) => break e,
        }
    };
    assert_eq!(offers, 1);
    match err {
        FeedError::UnknownAvailability { value } => assert_eq!(value, "maybe"),
        other => panic!("unexpected error {:?}", other),
    }
    for _ in 0..3 {
        assert!(matches!(parser.advance(), Ok(FeedItem::Finished)));
    }
}

#[test]
fn truncated_offer_is_fatal() {
    let (offers, _, err) = read_feed(r#"<offers><offer id="A"><name>X</name>"#);
    assert!(offers.is_empty());
    assert!(matches!(err, Some(FeedError::UnexpectedEnd { .. })));
}

#[test]
fn mismatched_tags_are_fatal() {
    let (_, _, err) = read_feed(r#"<offers><offer id="A"><name>X</price></offer></offers>"#);
    match err {
        Some(FeedError::MalformedStream { position }) => assert!(position > 0),
        other => panic!("unexpected outcome {:?}", other),
    }
}

#[test]
fn other_end_tag_resets_current_field() {
    let xml = r#"<offer id="F"><name>N</name>trailing<price>3</price></offer>"#;
    let (offers, _, err) = read_feed(xml);
    assert!(err.is_none());
    assert_eq!(offers[0].name.as_deref(), Some("N"));
    assert_eq!(offers[0].price, Some(Price { units: 3, scale: 0 }));
}

#[test]
fn step_opens_offer_from_start_tag() {
    let ev = XmlEvent::Start {
        name: "offer".to_string(),
        attributes: vec![
            ("id".to_string(), "Z9".to_string()),
            ("available".to_string(), "0".to_string()),
            ("group_id".to_string(), "7".to_string()),
        ],
    };
    match feed_step(ParserContext::Document, ev, 10) {
        Ok((ParserContext::InOffer { offer, field }, FeedItem::Nothing)) => {
            assert_eq!(offer.offer_id, "Z9");
            assert_eq!(offer.available, Some(Availability::NotAvailable));
            assert_eq!(field, OfferField::Unset);
        }
        other => panic!("unexpected step {:?}", other),
    }
}

#[test]
fn step_reports_end_of_document_inside_offer() {
    let ctx = ParserContext::InOffer { offer: Offer::new("Q".to_string(), None), field: OfferField::Name };
    match feed_step(ctx, XmlEvent::Eof, 42) {
        Err(FeedError::UnexpectedEnd { position }) => assert_eq!(position, 42),
        other => panic!("unexpected step {:?}", other),
    }
}

#[test]
fn step_ignores_unknown_elements_between_offers() {
    let ev = XmlEvent::Start { name: "shop".to_string(), attributes: vec![] };
    assert!(matches!(feed_step(ParserContext::Document, ev, 0), Ok((ParserContext::Document, FeedItem::Nothing))));
}

#[test]
fn reader_position_advances() {
    let xml = r#"<offers><offer id="A"></offer></offers>"#;
    let mut parser = FeedParser::new(xml.as_bytes());
    assert_eq!(parser.position(), 0);
    while !matches!(parser.advance(), Ok(FeedItem::Offer(_))) {}
    assert!(parser.position() > 20);
}
