use hubber_xml::offer::{parse_availability, parse_currency};
use hubber_xml::{convert_offer_to_product, parse_category_id, parse_price, Availability, Offer, Price};

#[test]
fn price_whole_number() {
    assert_eq!(parse_price("10"), Some(Price { units: 10, scale: 0 }));
}

#[test]
fn price_with_fraction_in_lowest_terms() {
    assert_eq!(parse_price("10.50"), Some(Price { units: 105, scale: 1 }));
    assert_eq!(parse_price("10.00"), Some(Price { units: 10, scale: 0 }));
    assert_eq!(parse_price("0.05"), Some(Price { units: 5, scale: 2 }));
}

#[test]
fn price_with_bare_point_on_either_side() {
    assert_eq!(parse_price(".5"), Some(Price { units: 5, scale: 1 }));
    assert_eq!(parse_price("7."), Some(Price { units: 7, scale: 0 }));
}

#[test]
fn price_with_plus_sign() {
    assert_eq!(parse_price("+10.50"), Some(Price { units: 105, scale: 1 }));
    assert_eq!(parse_price("+"), None);
    assert_eq!(parse_price("++1"), None);
}

#[test]
fn price_rejects_what_is_no_numeral() {
    assert_eq!(parse_price(""), None);
    assert_eq!(parse_price("."), None);
    assert_eq!(parse_price("1.2.3"), None);
    assert_eq!(parse_price("12a"), None);
    assert_eq!(parse_price(" 12"), None);
    assert_eq!(parse_price("-5"), None);
    assert_eq!(parse_price("1e3"), None);
    assert_eq!(parse_price("inf"), None);
    assert_eq!(parse_price("цена"), None);
}

#[test]
fn price_rejects_digits_beyond_sixty_four_bits() {
    assert_eq!(parse_price("18446744073709551615"), Some(Price { units: u64::MAX, scale: 0 }));
    assert_eq!(parse_price("18446744073709551616"), None);
}

#[test]
fn category_id_reads_signed_integers() {
    assert_eq!(parse_category_id("5"), Some(5));
    assert_eq!(parse_category_id("+42"), Some(42));
    assert_eq!(parse_category_id("-7"), Some(-7));
    assert_eq!(parse_category_id("2147483647"), Some(i32::MAX));
    assert_eq!(parse_category_id("-2147483648"), Some(i32::MIN));
}

#[test]
fn category_id_rejects_bad_text() {
    assert_eq!(parse_category_id(""), None);
    assert_eq!(parse_category_id("-"), None);
    assert_eq!(parse_category_id("5x"), None);
    assert_eq!(parse_category_id("2147483648"), None);
    assert_eq!(parse_category_id("-2147483649"), None);
    assert_eq!(parse_category_id("99999999999999999999"), None);
}

#[test]
fn availability_literals() {
    assert_eq!(parse_availability("1"), Some(Availability::Available));
    assert_eq!(parse_availability("true"), Some(Availability::Available));
    assert_eq!(parse_availability("0"), Some(Availability::NotAvailable));
    assert_eq!(parse_availability("false"), Some(Availability::NotAvailable));
    assert_eq!(parse_availability(""), Some(Availability::NotAvailable));
    assert_eq!(parse_availability("yes"), None);
    assert_eq!(parse_availability("TRUE"), None);
}

#[test]
fn availability_codes() {
    assert_eq!(Availability::Available.code(), 1);
    assert_eq!(Availability::NotAvailable.code(), 0);
}

#[test]
fn currency_codes() {
    assert_eq!(parse_currency("USD"), Some("USD".to_string()));
    assert_eq!(parse_currency("KZT"), Some("KZT".to_string()));
    assert_eq!(parse_currency(""), Some("UAH".to_string()));
    assert_eq!(parse_currency("GBP"), None);
}

fn full_offer(id: &str) -> Offer {
    let mut o = Offer::new(id.to_string(), Some(Availability::Available));
    o.name = Some("Foo".to_string());
    o.category_id = Some(5);
    o.price = Some(Price { units: 10, scale: 0 });
    o
}

#[test]
fn validator_accepts_complete_offer() {
    let mut o = full_offer("A1");
    o.old_price = Some(Price { units: 12, scale: 0 });
    o.vendor = Some("Acme".to_string());
    let p = convert_offer_to_product(o).unwrap();
    assert_eq!(p.offer_id, "A1");
    assert_eq!(p.hub_stock_id, "A1");
    assert_eq!(p.name, "Foo");
    assert_eq!(p.category_id, 5);
    assert_eq!(p.price, Price { units: 10, scale: 0 });
    assert_eq!(p.oldprice, Some(Price { units: 12, scale: 0 }));
    assert_eq!(p.available, Availability::Available);
}

#[test]
fn validator_rejects_offer_missing_a_required_field() {
    let mut o = full_offer("A");
    o.name = None;
    assert!(convert_offer_to_product(o).is_none());
    let mut o = full_offer("B");
    o.category_id = None;
    assert!(convert_offer_to_product(o).is_none());
    let mut o = full_offer("C");
    o.price = None;
    assert!(convert_offer_to_product(o).is_none());
}

#[test]
fn validator_defaults_missing_availability() {
    let mut o = full_offer("A");
    o.available = None;
    assert_eq!(convert_offer_to_product(o).unwrap().available, Availability::NotAvailable);
}
