//! Offers as the feed gives them, and the check that turns an offer into a
//! catalog candidate.

use vstd::prelude::*;

use crate::num::Price;
use crate::text::text_is;

verus! {

/// Whether a product can be ordered.
#[derive(Clone, Copy, Debug, PartialEq, Eq, Structural)]
pub enum Availability {
    Available,
    NotAvailable,
}

impl Availability {
    /// The code that the catalog stores for this state.
    pub fn code(self) -> (r: i8)
        ensures
            r == (if self == Availability::Available { 1i8 } else { 0i8 }),
    {
        match self {
            Availability::Available => 1,
            Availability::NotAvailable => 0,
        }
    }
}

/// What the availability attribute of an offer means: `"true"` and `"1"`
/// mark an available product; `""`, `"false"` and `"0"` one that is not.
/// Any other word has no meaning.
pub open spec fn availability_spec(s: Seq<char>) -> Option<Availability> {
    if s == "true"@ || s == "1"@ {
        Some(Availability::Available)
    } else if s == ""@ || s == "false"@ || s == "0"@ {
        Some(Availability::NotAvailable)
    } else {
        None
    }
}

/// Reads the availability attribute of an offer; `None` for a word
/// outside the accepted five.
pub fn parse_availability(s: &str) -> (r: Option<Availability>)
    ensures
        r == availability_spec(s@),
{
    if text_is(s, "true") || text_is(s, "1") {
        Some(Availability::Available)
    } else if text_is(s, "") || text_is(s, "false") || text_is(s, "0") {
        Some(Availability::NotAvailable)
    } else {
        None
    }
}

/// The currency codes that a catalog entry may carry.
pub open spec fn is_known_currency(s: Seq<char>) -> bool {
    s == "UAH"@ || s == "USD"@ || s == "EUR"@ || s == "RUB"@ || s == "BYR"@ || s == "KZT"@
}

/// What a currency element of the feed stands for: a known code stands
/// for itself, an empty one for the home currency `"UAH"`, any other for
/// no currency at all.
pub open spec fn currency_spec(s: Seq<char>) -> Option<Seq<char>> {
    if is_known_currency(s) {
        Some(s)
    } else if s == ""@ {
        Some("UAH"@)
    } else {
        None
    }
}

/// Reads a currency element of the feed, as `currency_spec` says.
pub fn parse_currency(s: &str) -> (r: Option<String>)
    ensures
        r matches Some(c) ==> currency_spec(s@) == Some(c@),
        r is None ==> currency_spec(s@) is None,
{
    if text_is(s, "UAH") || text_is(s, "USD") || text_is(s, "EUR") || text_is(s, "RUB")
        || text_is(s, "BYR") || text_is(s, "KZT") {
        Some(s.to_owned())
    } else if text_is(s, "") {
        Some("UAH".to_owned())
    } else {
        None
    }
}

/// One offer of the feed, as read: only the identifier is sure to be there.
#[derive(Debug)]
pub struct Offer {
    pub offer_id: String,
    /// `None` where the offer carries no availability attribute.
    pub available: Option<Availability>,
    pub price: Option<Price>,
    pub old_price: Option<Price>,
    pub currency_id: Option<String>,
    pub category_id: Option<i32>,
    pub name: Option<String>,
    pub description: Option<String>,
    pub vendor: Option<String>,
    pub vendor_code: Option<String>,
}

impl Offer {
    /// An offer with the given identifier and availability and no other field.
    pub fn new(offer_id: String, available: Option<Availability>) -> (r: Offer)
        ensures
            r.offer_id == offer_id,
            r.available == available,
            r.price is None,
            r.old_price is None,
            r.currency_id is None,
            r.category_id is None,
            r.name is None,
            r.description is None,
            r.vendor is None,
            r.vendor_code is None,
    {
        Offer {
            offer_id,
            available,
            price: None,
            old_price: None,
            currency_id: None,
            category_id: None,
            name: None,
            description: None,
            vendor: None,
            vendor_code: None,
        }
    }

    /// The offer has the three fields that a catalog entry cannot do without.
    pub open spec fn is_complete(self) -> bool {
        self.name is Some && self.category_id is Some && self.price is Some
    }
}

/// A catalog entry built from an accepted offer. Name, category and price
/// are always there.
#[derive(Debug)]
pub struct NewProduct {
    pub offer_id: String,
    /// The key that joins the entry to the feed; the offer's identifier.
    pub hub_stock_id: String,
    pub category_id: i32,
    pub name: String,
    pub price: Price,
    pub oldprice: Option<Price>,
    pub currency_id: Option<String>,
    pub available: Availability,
    pub description: Option<String>,
}

/// A copy of optional text.
pub fn clone_text(s: &Option<String>) -> (r: Option<String>)
    ensures
        r == *s,
{
    match s {
        Some(t) => Some(t.clone()),
        None => None,
    }
}

impl Clone for NewProduct {
    fn clone(&self) -> (r: Self)
        ensures
            r == *self,
    {
        NewProduct {
            offer_id: self.offer_id.clone(),
            hub_stock_id: self.hub_stock_id.clone(),
            category_id: self.category_id,
            name: self.name.clone(),
            price: self.price,
            oldprice: self.oldprice,
            currency_id: clone_text(&self.currency_id),
            available: self.available,
            description: clone_text(&self.description),
        }
    }
}

/// An offer without an availability attribute counts as not available.
pub open spec fn offer_availability(a: Option<Availability>) -> Availability {
    match a {
        Some(a) => a,
        None => Availability::NotAvailable,
    }
}

pub open spec fn opt_view(s: Option<String>) -> Option<Seq<char>> {
    match s {
        Some(s) => Some(s@),
        None => None,
    }
}

/// The candidate that a complete offer gives.
pub open spec fn product_of(offer: Offer, p: NewProduct) -> bool {
    &&& p.offer_id@ == offer.offer_id@
    &&& p.hub_stock_id@ == offer.offer_id@
    &&& Some(p.category_id) == offer.category_id
    &&& Some(p.name@) == opt_view(offer.name)
    &&& Some(p.price) == offer.price
    &&& p.oldprice == offer.old_price
    &&& opt_view(p.currency_id) == opt_view(offer.currency_id)
    &&& p.available == offer_availability(offer.available)
    &&& opt_view(p.description) == opt_view(offer.description)
}

/// Turns an offer into a catalog candidate; `None` exactly when the name,
/// the category or the price is missing. Vendor fields are not kept.
pub fn convert_offer_to_product(offer: Offer) -> (r: Option<NewProduct>)
    ensures
        r is None <==> !offer.is_complete(),
        r matches Some(p) ==> product_of(offer, p),
{
    let name = match offer.name {
        Some(name) => name,
        None => return None,
    };
    let category_id = match offer.category_id {
        Some(c) => c,
        None => return None,
    };
    let price = match offer.price {
        Some(p) => p,
        None => return None,
    };
    let available = match offer.available {
        Some(a) => a,
        None => Availability::NotAvailable,
    };
    Some(NewProduct {
        offer_id: offer.offer_id.clone(),
        hub_stock_id: offer.offer_id,
        category_id,
        name,
        price,
        oldprice: offer.old_price,
        currency_id: offer.currency_id,
        available,
        description: offer.description,
    })
}

} // verus!
