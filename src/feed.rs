//! The feed reader: a forward-only state machine over the feed's markup
//! events that yields one offer at a time.

use vstd::prelude::*;

use crate::num::{category_id_spec, parse_category_id, parse_price, price_spec, Price};
use crate::offer::{
    availability_spec, currency_spec, opt_view, parse_availability, parse_currency, Availability,
    Offer,
};
use crate::text::text_is;

use quick_xml::events::{BytesStart, Event};
use quick_xml::Reader;

verus! {

/// One markup event of the feed, with names and text decoded.
#[derive(Debug)]
pub enum XmlEvent {
    Start { name: String, attributes: Vec<(String, String)> },
    Empty { name: String, attributes: Vec<(String, String)> },
    End { name: String },
    Text { text: String },
    Eof,
    /// Comments, declarations and the like, which the feed reader passes over.
    Other,
}

/// What a markup event says: names, attributes and text as characters.
pub enum EventView {
    Start { name: Seq<char>, attributes: Seq<(Seq<char>, Seq<char>)> },
    Empty { name: Seq<char>, attributes: Seq<(Seq<char>, Seq<char>)> },
    End { name: Seq<char> },
    Text { text: Seq<char> },
    Eof,
    Other,
}

pub open spec fn attribute_views(a: Seq<(String, String)>) -> Seq<(Seq<char>, Seq<char>)> {
    a.map_values(|p: (String, String)| (p.0@, p.1@))
}

impl View for XmlEvent {
    type V = EventView;

    open spec fn view(&self) -> EventView {
        match self {
            XmlEvent::Start { name, attributes } => EventView::Start {
                name: name@,
                attributes: attribute_views(attributes@),
            },
            XmlEvent::Empty { name, attributes } => EventView::Empty {
                name: name@,
                attributes: attribute_views(attributes@),
            },
            XmlEvent::End { name } => EventView::End { name: name@ },
            XmlEvent::Text { text } => EventView::Text { text: text@ },
            XmlEvent::Eof => EventView::Eof,
            XmlEvent::Other => EventView::Other,
        }
    }
}

/// The child element of an offer whose text is being read.
#[derive(Clone, Copy, Debug, PartialEq, Eq, Structural)]
pub enum OfferField {
    Unset,
    Price,
    OldPrice,
    CurrencyId,
    CategoryId,
    Name,
    Description,
    Vendor,
    VendorCode,
}

/// Where the reader stands: between offers, or inside one.
#[derive(Debug)]
pub enum ParserContext {
    Document,
    InOffer { offer: Offer, field: OfferField },
}

/// A flaw in the feed that costs a field or an offer, not the run.
#[derive(Debug)]
pub enum Notice {
    OfferWithoutId,
    /// The text of `field` in the offer `offer_id` could not be used.
    FieldRejected { offer_id: String, field: OfferField, value: String },
}

/// What one step of the reader gives.
#[derive(Debug)]
pub enum FeedItem {
    Nothing,
    Offer(Offer),
    Notice(Notice),
    /// The feed has ended; nothing follows.
    Finished,
}

/// A flaw that ends the run.
#[derive(Debug)]
pub enum FeedError {
    /// The bytes do not form a well-formed document.
    MalformedStream { position: usize },
    /// The document ended inside an offer.
    UnexpectedEnd { position: usize },
    /// An availability attribute held a word outside the accepted five.
    UnknownAvailability { value: String },
}

/// The field that a child element of an offer fills.
pub open spec fn field_named(name: Seq<char>) -> Option<OfferField> {
    if name == "price"@ {
        Some(OfferField::Price)
    } else if name == "oldprice"@ {
        Some(OfferField::OldPrice)
    } else if name == "currencyId"@ {
        Some(OfferField::CurrencyId)
    } else if name == "categoryId"@ {
        Some(OfferField::CategoryId)
    } else if name == "name"@ {
        Some(OfferField::Name)
    } else if name == "description"@ {
        Some(OfferField::Description)
    } else if name == "vendor"@ {
        Some(OfferField::Vendor)
    } else if name == "vendorCode"@ {
        Some(OfferField::VendorCode)
    } else {
        None
    }
}

fn field_for(name: &str) -> (r: Option<OfferField>)
    ensures
        r == field_named(name@),
{
    if text_is(name, "price") {
        Some(OfferField::Price)
    } else if text_is(name, "oldprice") {
        Some(OfferField::OldPrice)
    } else if text_is(name, "currencyId") {
        Some(OfferField::CurrencyId)
    } else if text_is(name, "categoryId") {
        Some(OfferField::CategoryId)
    } else if text_is(name, "name") {
        Some(OfferField::Name)
    } else if text_is(name, "description") {
        Some(OfferField::Description)
    } else if text_is(name, "vendor") {
        Some(OfferField::Vendor)
    } else if text_is(name, "vendorCode") {
        Some(OfferField::VendorCode)
    } else {
        None
    }
}

/// The identifier and availability that the attributes of an offer give,
/// read in order, a later attribute of a name over an earlier one; or the
/// first availability word that has no meaning.
pub open spec fn offer_head(attrs: Seq<(Seq<char>, Seq<char>)>) -> Result<
    (Option<Seq<char>>, Option<Availability>),
    Seq<char>,
>
    decreases attrs.len(),
{
    if attrs.len() == 0 {
        Ok((None, None))
    } else {
        match offer_head(attrs.drop_last()) {
            Err(v) => Err(v),
            Ok((id, av)) => {
                let (k, v) = attrs.last();
                if k == "id"@ {
                    Ok((Some(v), av))
                } else if k == "available"@ {
                    match availability_spec(v) {
                        Some(a) => Ok((id, Some(a))),
                        None => Err(v),
                    }
                } else {
                    Ok((id, av))
                }
            },
        }
    }
}

/// An offer tag with an identifier and one availability attribute `v`
/// takes the availability that `v` names: available for `"1"` and `"true"`,
/// not available for `"0"`, `"false"` and `""`; any other word ends the run
/// with that word.
pub proof fn lemma_availability_attribute(id: Seq<char>, v: Seq<char>)
    ensures
        offer_head(seq![("id"@, id), ("available"@, v)]) == match availability_spec(v) {
            Some(a) => Ok::<_, Seq<char>>((Some(id), Some(a))),
            None => Err(v),
        },
        (v == "1"@ || v == "true"@) ==> availability_spec(v) == Some(Availability::Available),
        (v == "0"@ || v == "false"@ || v == ""@) ==> availability_spec(v) == Some(
            Availability::NotAvailable,
        ),
{
    reveal_strlit("id");
    reveal_strlit("available");
    reveal_strlit("1");
    reveal_strlit("true");
    reveal_strlit("0");
    reveal_strlit("false");
    reveal_strlit("");
    let attrs = seq![("id"@, id), ("available"@, v)];
    let first = seq![("id"@, id)];
    assert(attrs.drop_last() =~= first);
    assert(attrs.last() == ("available"@, v));
    assert(first.drop_last() =~= Seq::<(Seq<char>, Seq<char>)>::empty());
    assert(first.last() == ("id"@, id));
    assert(offer_head(Seq::<(Seq<char>, Seq<char>)>::empty()) == Ok::<_, Seq<char>>(
        (None::<Seq<char>>, None::<Availability>),
    ));
    assert(offer_head(first) == Ok::<_, Seq<char>>((Some(id), None::<Availability>)));
    if v == "0"@ {
        assert(v.len() != "true"@.len());
        assert(v[0] != "1"@[0]);
    }
    if v == "false"@ || v == ""@ {
        assert(v.len() != "true"@.len());
        assert(v.len() != "1"@.len());
    }
    assert("available"@ != "id"@) by {
        assert("available"@.len() != "id"@.len());
    }
}

fn read_offer_head(attrs: &Vec<(String, String)>) -> (r: Result<
    (Option<String>, Option<Availability>),
    String,
>)
    ensures
        match (r, offer_head(attribute_views(attrs@))) {
            (Ok((id, av)), Ok((sid, sav))) => opt_view(id) == sid && av == sav,
            (Err(v), Err(sv)) => v@ == sv,
            _ => false,
        },
{
    let mut id: Option<String> = None;
    let mut av: Option<Availability> = None;
    let ghost views = attribute_views(attrs@);
    let mut i: usize = 0;
    while i < attrs.len()
        invariant
            views == attribute_views(attrs@),
            i <= attrs@.len(),
            offer_head(views.take(i as int)) == Ok::<_, Seq<char>>((opt_view(id), av)),
        decreases attrs@.len() - i,
    {
        let ghost t = views.take(i as int + 1);
        proof {
            assert(t.drop_last() =~= views.take(i as int));
            assert(t.last() == (attrs@[i as int].0@, attrs@[i as int].1@));
        }
        let (k, v) = &attrs[i];
        if text_is(k.as_str(), "id") {
            id = Some(v.clone());
        } else if text_is(k.as_str(), "available") {
            match parse_availability(v.as_str()) {
                Some(a) => {
                    av = Some(a);
                },
                None => {
                    proof {
                        lemma_offer_head_err_stays(views, i as int + 1);
                    }
                    return Err(v.clone());
                },
            }
        }
        i = i + 1;
    }
    proof {
        assert(views.take(i as int) =~= views);
    }
    Ok((id, av))
}

proof fn lemma_offer_head_err_stays(attrs: Seq<(Seq<char>, Seq<char>)>, j: int)
    requires
        0 <= j <= attrs.len(),
        offer_head(attrs.take(j)) is Err,
    ensures
        offer_head(attrs) == offer_head(attrs.take(j)),
    decreases attrs.len() - j,
{
    if j < attrs.len() {
        assert(attrs.take(j + 1).drop_last() =~= attrs.take(j));
        lemma_offer_head_err_stays(attrs, j + 1);
    } else {
        assert(attrs.take(j) =~= attrs);
    }
}

/// `n` is the offer `o` after the text `text` was read for `field`. A
/// numeral or currency that cannot be read leaves its field empty.
pub open spec fn text_applied(o: Offer, field: OfferField, text: Seq<char>, n: Offer) -> bool {
    &&& n.offer_id == o.offer_id
    &&& n.available == o.available
    &&& if field == OfferField::Price {
        price_spec(text, n.price)
    } else {
        n.price == o.price
    }
    &&& if field == OfferField::OldPrice {
        price_spec(text, n.old_price)
    } else {
        n.old_price == o.old_price
    }
    &&& opt_view(n.currency_id) == if field == OfferField::CurrencyId {
        currency_spec(text)
    } else {
        opt_view(o.currency_id)
    }
    &&& n.category_id == if field == OfferField::CategoryId {
        category_id_spec(text)
    } else {
        o.category_id
    }
    &&& opt_view(n.name) == if field == OfferField::Name {
        Some(text)
    } else {
        opt_view(o.name)
    }
    &&& opt_view(n.description) == if field == OfferField::Description {
        Some(text)
    } else {
        opt_view(o.description)
    }
    &&& opt_view(n.vendor) == if field == OfferField::Vendor {
        Some(text)
    } else {
        opt_view(o.vendor)
    }
    &&& opt_view(n.vendor_code) == if field == OfferField::VendorCode {
        Some(text)
    } else {
        opt_view(o.vendor_code)
    }
}

/// Whether reading `text` for `field` fails, so that a notice is due.
pub open spec fn text_rejected(field: OfferField, text: Seq<char>) -> bool {
    ||| field == OfferField::Price && price_spec(text, None::<Price>)
    ||| field == OfferField::OldPrice && price_spec(text, None::<Price>)
    ||| field == OfferField::CurrencyId && currency_spec(text) is None
    ||| field == OfferField::CategoryId && category_id_spec(text) is None
}

fn apply_text(offer: &mut Offer, field: OfferField, text: &String) -> (rejected: bool)
    ensures
        text_applied(*old(offer), field, text@, *final(offer)),
        rejected == text_rejected(field, text@),
{
    match field {
        OfferField::Price => {
            offer.price = parse_price(text.as_str());
            offer.price.is_none()
        },
        OfferField::OldPrice => {
            offer.old_price = parse_price(text.as_str());
            offer.old_price.is_none()
        },
        OfferField::CurrencyId => {
            offer.currency_id = parse_currency(text.as_str());
            offer.currency_id.is_none()
        },
        OfferField::CategoryId => {
            offer.category_id = parse_category_id(text.as_str());
            offer.category_id.is_none()
        },
        OfferField::Name => {
            offer.name = Some(text.clone());
            false
        },
        OfferField::Description => {
            offer.description = Some(text.clone());
            false
        },
        OfferField::Vendor => {
            offer.vendor = Some(text.clone());
            false
        },
        OfferField::VendorCode => {
            offer.vendor_code = Some(text.clone());
            false
        },
        OfferField::Unset => false,
    }
}

/// `o` is a new offer with this identifier and availability and no other field.
pub open spec fn fresh_offer(o: Offer, id: Seq<char>, av: Option<Availability>) -> bool {
    &&& o.offer_id@ == id
    &&& o.available == av
    &&& o.price is None
    &&& o.old_price is None
    &&& o.currency_id is None
    &&& o.category_id is None
    &&& o.name is None
    &&& o.description is None
    &&& o.vendor is None
    &&& o.vendor_code is None
}

/// What one step of the reader does: `r` is the outcome of reading `ev` in
/// `ctx`, where `position` is how far into the feed `ev` ends.
///
/// Between offers, the start of an `offer` element opens an offer, an
/// `offer` element without content is an offer by itself, an offer without
/// identifier is passed over with a notice, and an availability word without
/// meaning ends the run. Inside an offer, a known child element selects the
/// field that its text fills, any other end tag clears that choice, the end
/// of the `offer` element yields the offer, and the end of the document
/// ends the run.
pub open spec fn step_spec(
    ctx: ParserContext,
    ev: EventView,
    position: usize,
    r: Result<(ParserContext, FeedItem), FeedError>,
) -> bool {
    match ctx {
        ParserContext::Document => match ev {
            EventView::Start { name, attributes } if name == "offer"@ => match offer_head(
                attributes,
            ) {
                Err(v) => r matches Err(FeedError::UnknownAvailability { value }) && value@ == v,
                Ok((None, _)) => r == Ok::<_, FeedError>(
                    (ParserContext::Document, FeedItem::Notice(Notice::OfferWithoutId)),
                ),
                Ok((Some(id), av)) => r matches Ok(
                    (ParserContext::InOffer { offer, field }, FeedItem::Nothing),
                ) && field == OfferField::Unset && fresh_offer(offer, id, av),
            },
            EventView::Empty { name, attributes } if name == "offer"@ => match offer_head(
                attributes,
            ) {
                Err(v) => r matches Err(FeedError::UnknownAvailability { value }) && value@ == v,
                Ok((None, _)) => r == Ok::<_, FeedError>(
                    (ParserContext::Document, FeedItem::Notice(Notice::OfferWithoutId)),
                ),
                Ok((Some(id), av)) => r matches Ok(
                    (ParserContext::Document, FeedItem::Offer(offer)),
                ) && fresh_offer(offer, id, av),
            },
            EventView::Eof => r == Ok::<_, FeedError>((ParserContext::Document, FeedItem::Finished)),
            _ => r == Ok::<_, FeedError>((ParserContext::Document, FeedItem::Nothing)),
        },
        ParserContext::InOffer { offer, field } => match ev {
            EventView::Start { name, attributes: _ } => {
                let f = match field_named(name) {
                    Some(f) => f,
                    None => field,
                };
                r == Ok::<_, FeedError>(
                    (ParserContext::InOffer { offer, field: f }, FeedItem::Nothing),
                )
            },
            EventView::Text { text } => r matches Ok(
                (ParserContext::InOffer { offer: n, field: f }, item),
            ) && f == field && text_applied(offer, field, text, n) && if text_rejected(
                field,
                text,
            ) {
                item matches FeedItem::Notice(Notice::FieldRejected { offer_id, field: g, value })
                    && offer_id == offer.offer_id && g == field && value@ == text
            } else {
                item == FeedItem::Nothing
            },
            EventView::End { name } => if name == "offer"@ {
                r == Ok::<_, FeedError>((ParserContext::Document, FeedItem::Offer(offer)))
            } else {
                r == Ok::<_, FeedError>(
                    (ParserContext::InOffer { offer, field: OfferField::Unset }, FeedItem::Nothing),
                )
            },
            EventView::Eof => r == Err::<(ParserContext, FeedItem), _>(
                FeedError::UnexpectedEnd { position },
            ),
            _ => r == Ok::<_, FeedError>(
                (ParserContext::InOffer { offer, field }, FeedItem::Nothing),
            ),
        },
    }
}

/// Reads one event in the given context; see `step_spec`.
pub fn feed_step(ctx: ParserContext, ev: XmlEvent, position: usize) -> (r: Result<
    (ParserContext, FeedItem),
    FeedError,
>)
    ensures
        step_spec(ctx, ev@, position, r),
{
    match ctx {
        ParserContext::Document => match ev {
            XmlEvent::Start { name, attributes } => {
                if !text_is(name.as_str(), "offer") {
                    return Ok((ParserContext::Document, FeedItem::Nothing));
                }
                match read_offer_head(&attributes) {
                    Err(value) => Err(FeedError::UnknownAvailability { value }),
                    Ok((None, _)) => Ok(
                        (ParserContext::Document, FeedItem::Notice(Notice::OfferWithoutId)),
                    ),
                    Ok((Some(id), av)) => Ok(
                        (
                            ParserContext::InOffer {
                                offer: Offer::new(id, av),
                                field: OfferField::Unset,
                            },
                            FeedItem::Nothing,
                        ),
                    ),
                }
            },
            XmlEvent::Empty { name, attributes } => {
                if !text_is(name.as_str(), "offer") {
                    return Ok((ParserContext::Document, FeedItem::Nothing));
                }
                match read_offer_head(&attributes) {
                    Err(value) => Err(FeedError::UnknownAvailability { value }),
                    Ok((None, _)) => Ok(
                        (ParserContext::Document, FeedItem::Notice(Notice::OfferWithoutId)),
                    ),
                    Ok((Some(id), av)) => Ok(
                        (ParserContext::Document, FeedItem::Offer(Offer::new(id, av))),
                    ),
                }
            },
            XmlEvent::Eof => Ok((ParserContext::Document, FeedItem::Finished)),
            _ => Ok((ParserContext::Document, FeedItem::Nothing)),
        },
        ParserContext::InOffer { offer, field } => match ev {
            XmlEvent::Start { name, attributes: _ } => {
                let f = match field_for(name.as_str()) {
                    Some(f) => f,
                    None => field,
                };
                Ok((ParserContext::InOffer { offer, field: f }, FeedItem::Nothing))
            },
            XmlEvent::Text { text } => {
                let mut offer = offer;
                let rejected = apply_text(&mut offer, field, &text);
                let item = if rejected {
                    FeedItem::Notice(
                        Notice::FieldRejected {
                            offer_id: offer.offer_id.clone(),
                            field,
                            value: text,
                        },
                    )
                } else {
                    FeedItem::Nothing
                };
                Ok((ParserContext::InOffer { offer, field }, item))
            },
            XmlEvent::End { name } => {
                if text_is(name.as_str(), "offer") {
                    Ok((ParserContext::Document, FeedItem::Offer(offer)))
                } else {
                    Ok((ParserContext::InOffer { offer, field: OfferField::Unset }, FeedItem::Nothing))
                }
            },
            XmlEvent::Eof => Err(FeedError::UnexpectedEnd { position }),
            _ => Ok((ParserContext::InOffer { offer, field }, FeedItem::Nothing)),
        },
    }
}

/// quick_xml's error, carried opaque: any error ends the feed.
#[verifier::external_type_specification]
#[verifier::external_body]
pub struct ExXmlError(quick_xml::Error);

/// quick_xml's start tag, carried opaque into `start_tag`.
#[verifier::external_type_specification]
#[verifier::external_body]
pub struct ExBytesStart<'a>(BytesStart<'a>);

/// The markup tokenizer over a feed held in memory, with its scratch space.
/// Kept opaque: Verus does not take a declaration of `quick_xml::Reader`,
/// whose parameter is bound by `std::io::BufRead`.
#[verifier::external_body]
pub struct XmlTokens<'a> {
    reader: Reader<&'a [u8]>,
    buf: Vec<u8>,
}

/// Relies on quick_xml::events::BytesStart::name and ::attributes: the
/// element's name and its attributes in order, values unescaped.
#[verifier::external_body]
fn start_tag(e: &BytesStart) -> Result<(String, Vec<(String, String)>), quick_xml::Error> {
    let mut attributes = Vec::new();
    for a in e.attributes() {
        let a = a?;
        let value = a.unescaped_value()?;
        attributes.push((String::from_utf8_lossy(a.key).into_owned(), String::from_utf8_lossy(&value).into_owned()));
    }
    Ok((String::from_utf8_lossy(e.name()).into_owned(), attributes))
}

/// The `k`-th event (counting from 0) that quick_xml's tokenizer, with its
/// default settings, reads from the document `source`, decoded as
/// `XmlTokens::next_event` decodes it; `None` where that read fails.
pub uninterp spec fn feed_event(source: Seq<u8>, k: nat) -> Option<EventView>;

/// The bytes that a tokenizer reads.
pub uninterp spec fn tokens_source(t: XmlTokens) -> Seq<u8>;

/// How many events a tokenizer has read.
pub uninterp spec fn tokens_read(t: XmlTokens) -> nat;

impl<'a> XmlTokens<'a> {
    /// Relies on quick_xml::Reader::from_reader: a tokenizer at the start of
    /// `source`, with its default settings (end tags checked against start
    /// tags, text kept as it is, empty elements reported as such).
    #[verifier::external_body]
    fn new(source: &'a [u8]) -> (r: Self)
        ensures
            tokens_source(r) == source@,
            tokens_read(r) == 0,
    {
        XmlTokens { reader: Reader::from_reader(source), buf: Vec::new() }
    }

    /// Relies on quick_xml::Reader::buffer_position: how many bytes the
    /// tokenizer has consumed.
    #[verifier::external_body]
    fn position(&self) -> usize {
        self.reader.buffer_position()
    }

    /// Relies on quick_xml::Reader::read_event: the next markup event of the
    /// document, text unescaped. What it reads depends on the bytes alone.
    #[verifier::external_body]
    fn next_event(&mut self) -> (r: Result<XmlEvent, quick_xml::Error>)
        ensures
            tokens_source(*final(self)) == tokens_source(*old(self)),
            tokens_read(*final(self)) == tokens_read(*old(self)) + 1,
            match r {
                Ok(ev) => feed_event(tokens_source(*old(self)), tokens_read(*old(self))) == Some(ev@),
                Err(_) => feed_event(tokens_source(*old(self)), tokens_read(*old(self))) is None,
            },
    {
        self.buf.clear();
        match self.reader.read_event(&mut self.buf)? {
            Event::Start(e) => start_tag(&e).map(|(name, attributes)| XmlEvent::Start { name, attributes }),
            Event::Empty(e) => start_tag(&e).map(|(name, attributes)| XmlEvent::Empty { name, attributes }),
            Event::End(e) => Ok(XmlEvent::End { name: String::from_utf8_lossy(e.name()).into_owned() }),
            Event::Text(t) => Ok(XmlEvent::Text { text: String::from_utf8_lossy(&t.unescaped()?).into_owned() }),
            Event::Eof => Ok(XmlEvent::Eof),
            _ => Ok(XmlEvent::Other),
        }
    }
}

/// Reads offers from a feed, one step per markup event. After the feed has
/// ended or a fatal flaw was met, every step yields `Finished`.
pub struct FeedParser<'a> {
    tokens: XmlTokens<'a>,
    context: ParserContext,
    done: bool,
}

impl<'a> FeedParser<'a> {
    pub closed spec fn context(&self) -> ParserContext {
        self.context
    }

    pub closed spec fn is_done(&self) -> bool {
        self.done
    }

    /// The document being read.
    pub closed spec fn source(&self) -> Seq<u8> {
        tokens_source(self.tokens)
    }

    /// How many markup events have been read.
    pub closed spec fn events_read(&self) -> nat {
        tokens_read(self.tokens)
    }

    /// A reader at the start of the feed that `source` holds.
    pub fn new(source: &'a [u8]) -> (r: Self)
        ensures
            r.source() == source@,
            r.events_read() == 0,
            r.context() == ParserContext::Document,
            !r.is_done(),
    {
        FeedParser { tokens: XmlTokens::new(source), context: ParserContext::Document, done: false }
    }

    /// How many bytes of the feed the reader has consumed.
    pub fn position(&self) -> usize {
        self.tokens.position()
    }

    /// Reads the next markup event of the document and takes the step that
    /// `step_spec` gives for it; a read that fails reports a malformed feed.
    /// Any error, like the end of the document, ends the feed.
    pub fn advance(&mut self) -> (r: Result<FeedItem, FeedError>)
        ensures
            final(self).source() == old(self).source(),
            old(self).is_done() ==> r == Ok::<_, FeedError>(FeedItem::Finished) && *final(self)
                == *old(self),
            !old(self).is_done() ==> final(self).events_read() == old(self).events_read() + 1
                && match feed_event(old(self).source(), old(self).events_read()) {
                None => r matches Err(FeedError::MalformedStream { .. }) && final(self).is_done(),
                Some(ev) => match r {
                    Err(e) => final(self).is_done() && exists|p: usize|
                        step_spec(old(self).context(), ev, p, Err(e)),
                    Ok(item) => final(self).is_done() == (item == FeedItem::Finished)
                        && exists|p: usize|
                        step_spec(old(self).context(), ev, p, Ok((final(self).context(), item))),
                },
            },
    {
        if self.done {
            return Ok(FeedItem::Finished);
        }
        let ev = match self.tokens.next_event() {
            Ok(ev) => ev,
            Err(_) => {
                self.done = true;
                return Err(FeedError::MalformedStream { position: self.tokens.position() });
            },
        };
        let position = self.tokens.position();
        let mut ctx = ParserContext::Document;
        std::mem::swap(&mut ctx, &mut self.context);
        let ghost ev0 = ev@;
        match feed_step(ctx, ev, position) {
            Ok((next, item)) => {
                self.context = next;
                self.done = match item {
                    FeedItem::Finished => true,
                    _ => false,
                };
                proof {
                    assert(step_spec(old(self).context(), ev0, position, Ok((self.context, item))));
                }
                Ok(item)
            },
            Err(e) => {
                self.done = true;
                proof {
                    assert(step_spec(old(self).context(), ev0, position, Err(e)));
                }
                Err(e)
            },
        }
    }
}

} // verus!
