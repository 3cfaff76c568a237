//! A trader's market order, how it stands against its rivals, and what to
//! report of a change.
pub mod float_bits;
pub mod price;
pub mod overprint;
pub mod order_analyze;

use vstd::prelude::*;
use std::collections::HashMap;
use vstd::string::StringExecFns;
use core::cmp::Ordering;
use price::{Price, PriceField, same_price, price_order, min_price, max_price, is_number, price_of_bits, price_of_field};
use overprint::Overprint;
use crate::decimal::{int_decimal, push_i128};
use crate::text::{starts_with, ends_with, lemma_joined};
use crate::json_doc::{
    JsonDoc, NumberField, field_of, bool_of, i64_of, text_of, number_field_of, owned_doc, read_bool,
    read_i64, read_text, read_number_field, integer_doc, lemma_integers_read_back,
};

verus! {

broadcast use {price::group_price_bits, vstd::std_specs::hash::group_hash_axioms};

/// A market order.
#[derive(Clone, Copy)]
pub struct Order {
    pub is_buy_order: bool,
    pub order_id: i64,
    pub price: Price,
    pub region_id: Option<i64>,
    pub type_id: i64,
    /// The standing found by the last assay, if any.
    pub assay_result: Option<Overprint>,
}

/// Whether a rival offers a better price than `price`: a higher one among
/// buy orders, a lower one among sell orders. A NaN on either side puts
/// nobody ahead.
pub open spec fn rival_ahead(price: Price, rival: Order) -> bool {
    if rival.is_buy_order {
        price_order(price, rival.price) == Some(Ordering::Less)
    } else {
        price_order(price, rival.price) == Some(Ordering::Greater)
    }
}

/// The standing after one more rival is looked at.
pub open spec fn account_rival(o: Overprint, price: Price, rival: Order) -> Overprint {
    Overprint {
        position: if rival_ahead(price, rival) {
            (o.position + 1) as i64
        } else {
            o.position
        },
        best_price: if rival.is_buy_order {
            max_price(o.best_price, rival.price)
        } else {
            min_price(o.best_price, rival.price)
        },
        analyzed: (o.analyzed + 1) as i64,
    }
}

/// Whether looking at `rival` would push a counter of `o` past `i64::MAX`.
pub open spec fn account_overflows(o: Overprint, price: Price, rival: Order) -> bool {
    ||| o.analyzed == i64::MAX
    ||| (rival_ahead(price, rival) && o.position == i64::MAX)
}

/// The standing of an order (id `id`, price `price`) after the rivals
/// `rivals` are looked at in turn, from a fresh standing; the order itself,
/// met among them, is skipped.
pub open spec fn assay_of(price: Price, id: i64, rivals: Seq<Order>) -> Overprint
    decreases rivals.len(),
{
    if rivals.len() == 0 {
        Overprint { position: 0, best_price: price::unset_price(), analyzed: 0 }
    } else {
        let before = assay_of(price, id, rivals.drop_last());
        if rivals.last().order_id == id {
            before
        } else {
            account_rival(before, price, rivals.last())
        }
    }
}


/// What a new assay has to tell the trader about an order.
#[derive(Clone, Copy, Debug)]
pub enum AssayReport {
    /// The order had rivals before and has none now.
    NoAssay { price: Price },
    /// The order moved from one place to another among the offers
    /// (places count from 1, in an `i128` so that the count cannot overflow).
    PositionChanged {
        previous_place: i128,
        place: i128,
        price: Price,
        best_price: Price,
        is_buy_order: bool,
    },
    /// A newly seen order that is not first: its place among `of` offers.
    Placed { place: i128, of: i128, price: Price, is_buy_order: bool },
}

/// The word the market uses for a side.
pub open spec fn side_word(is_buy_order: bool) -> Seq<char> {
    if is_buy_order {
        "buy"@
    } else {
        "sell"@
    }
}

/// What the trader is told of a report about the item `item`, given how
/// the report's prices are shown: `price`, `best_price` and their gap
/// `delta` (a report without a rival price leaves the last two unused).
pub open spec fn report_message(
    r: AssayReport,
    item: Seq<char>,
    price: Seq<char>,
    best_price: Seq<char>,
    delta: Seq<char>,
) -> Seq<char> {
    match r {
        AssayReport::NoAssay { .. } => "Item *"@ + item + "* (`"@ + price + "`) don't have any assay"@,
        AssayReport::PositionChanged { previous_place, place, is_buy_order, .. } => int_decimal(
            previous_place as int,
        ) + " \u{226b} "@ + int_decimal(place as int) + " \u{394}P = "@ + delta + " \u{2212} "@ + price
            + " = "@ + best_price + "; "@ + side_word(is_buy_order) + " *"@ + item + "*"@,
        AssayReport::Placed { place, of, is_buy_order, .. } => "Order *"@ + item + "* "@ + side_word(
            is_buy_order,
        ) + " in `"@ + int_decimal(place as int) + ":"@ + int_decimal(of as int) + "` price "@ + price,
    }
}

impl AssayReport {
    /// The message that tells the trader of the report, about the item
    /// `item`, with its prices shown as `price`, `best_price` and `delta`.
    pub fn message(&self, item: &str, price: &str, best_price: &str, delta: &str) -> (m: String)
        ensures
            m@ == report_message(*self, item@, price@, best_price@, delta@),
    {
        match self {
            AssayReport::NoAssay { .. } => {
                let mut m = String::from_str("Item *");
                m.append(item);
                m.append("* (`");
                m.append(price);
                m.append("`) don't have any assay");
                m
            },
            AssayReport::PositionChanged { previous_place, place, is_buy_order, .. } => {
                let mut m = String::new();
                push_i128(&mut m, *previous_place);
                m.append(" \u{226b} ");
                push_i128(&mut m, *place);
                m.append(" \u{394}P = ");
                m.append(delta);
                m.append(" \u{2212} ");
                m.append(price);
                m.append(" = ");
                m.append(best_price);
                m.append("; ");
                m.append(if *is_buy_order { "buy" } else { "sell" });
                m.append(" *");
                m.append(item);
                m.append("*");
                m
            },
            AssayReport::Placed { place, of, is_buy_order, .. } => {
                let mut m = String::from_str("Order *");
                m.append(item);
                m.append("* ");
                m.append(if *is_buy_order { "buy" } else { "sell" });
                m.append(" in `");
                push_i128(&mut m, *place);
                m.append(":");
                push_i128(&mut m, *of);
                m.append("` price ");
                m.append(price);
                m
            },
        }
    }
}

/// Nothing moved: same place, same number of rivals.
pub open spec fn standing_unchanged(now: Overprint, before: Overprint) -> bool {
    before.position == now.position && now.analyzed == before.analyzed
}

/// The trader changed the price and the order is first.
pub open spec fn repriced_to_first(o: Order, prev: Order) -> bool {
    !same_price(prev.price, o.price) && o.assay_result->0.position == 0
}

/// Every rival went away and the place did not change.
pub open spec fn rivals_gone(now: Overprint, before: Overprint) -> bool {
    before.position == now.position && before.analyzed != 0 && now.analyzed == 0
}

/// What the assay of `o` reports, given the order as it was saved after the
/// previous assay (if it was seen before).
pub open spec fn report_of(o: Order, previous: Option<Order>) -> Option<AssayReport> {
    let now = o.assay_result->0;
    match previous {
        Some(prev) => {
            let before = prev.assay_result->0;
            if standing_unchanged(now, before) {
                None
            } else if repriced_to_first(o, prev) {
                None
            } else if rivals_gone(now, before) {
                Some(AssayReport::NoAssay { price: o.price })
            } else if before.position != now.position {
                Some(
                    AssayReport::PositionChanged {
                        previous_place: (before.position + 1) as i128,
                        place: (now.position + 1) as i128,
                        price: o.price,
                        best_price: now.best_price,
                        is_buy_order: o.is_buy_order,
                    },
                )
            } else {
                None
            }
        },
        None => {
            if now.position != 0 {
                Some(
                    AssayReport::Placed {
                        place: (now.position + 1) as i128,
                        of: (now.analyzed + 1) as i128,
                        price: o.price,
                        is_buy_order: o.is_buy_order,
                    },
                )
            } else {
                None
            }
        },
    }
}

/// The order behind an optional reference.
pub open spec fn owned(previous: Option<&Order>) -> Option<Order> {
    match previous {
        Some(p) => Some(*p),
        None => None,
    }
}

/// `new` is `old` with another standing.
pub open spec fn same_order_but_standing(new: Order, old: Order) -> bool {
    &&& new.is_buy_order == old.is_buy_order
    &&& new.order_id == old.order_id
    &&& new.price == old.price
    &&& new.region_id == old.region_id
    &&& new.type_id == old.type_id
}

/// The order `o` after an assay against `rivals`.
pub open spec fn assayed(o: Order, rivals: Seq<Order>) -> Order {
    Order {
        is_buy_order: o.is_buy_order,
        order_id: o.order_id,
        price: o.price,
        region_id: o.region_id,
        type_id: o.type_id,
        assay_result: Some(assay_of(o.price, o.order_id, rivals)),
    }
}

/// An assay changes only the standing, and starts it afresh: orders that
/// differ at most in their standing come out of an assay against the same
/// market alike, and a second assay against the same market leaves what the
/// first one left.
pub proof fn lemma_assay_repeats(o: Order, other: Order, rivals: Seq<Order>)
    requires
        same_order_but_standing(other, o),
    ensures
        assayed(other, rivals) == assayed(o, rivals),
        assayed(assayed(o, rivals), rivals) == assayed(o, rivals),
        assayed(o, rivals).is_buy_order == o.is_buy_order && assayed(o, rivals).order_id == o.order_id
            && assayed(o, rivals).price == o.price && assayed(o, rivals).region_id == o.region_id
            && assayed(o, rivals).type_id == o.type_id,
        assayed(o, rivals).assay_result == Some(assay_of(o.price, o.order_id, rivals)),
{
}

/// The place and the counters of a standing stay within what was looked at.
pub proof fn lemma_assay_bounds(price: Price, id: i64, rivals: Seq<Order>)
    requires
        rivals.len() < i64::MAX,
    ensures
        0 <= assay_of(price, id, rivals).position <= assay_of(price, id, rivals).analyzed
            <= rivals.len(),
    decreases rivals.len(),
{
    if rivals.len() > 0 {
        lemma_assay_bounds(price, id, rivals.drop_last());
    }
}

impl Order {
    /// Counts one more rival into the standing: a rival with a better price
    /// pushes the order back one place, and the best rival price is kept.
    pub fn take_into_account(&mut self, rival: &Order)
        requires
            old(self).assay_result is Some,
            !account_overflows(old(self).assay_result->0, old(self).price, *rival),
        ensures
            same_order_but_standing(*final(self), *old(self)),
            final(self).assay_result == Some(
                account_rival(old(self).assay_result->0, old(self).price, *rival),
            ),
    {
        let price = self.price;
        match &mut self.assay_result {
            Some(overprint) => {
                if rival.is_buy_order {
                    overprint.best_price = *Price::max(&overprint.best_price, &rival.price);
                    if price < rival.price {
                        overprint.position += 1;
                    }
                } else {
                    overprint.best_price = *Price::min(&overprint.best_price, &rival.price);
                    if price > rival.price {
                        overprint.position += 1;
                    }
                }
                overprint.analyzed += 1;
            },
            None => {},
        }
    }

    /// Starts a fresh standing and counts in every rival of the market but
    /// the order itself. Returns whether the order was met among the rivals.
    pub fn assay(&mut self, rivals: &Vec<Order>) -> (found: bool)
        requires
            rivals@.len() < i64::MAX,
        ensures
            *final(self) == assayed(*old(self), rivals@),
            same_order_but_standing(*final(self), *old(self)),
            final(self).assay_result == Some(
                assay_of(old(self).price, old(self).order_id, rivals@),
            ),
            found == (exists|i: int|
                0 <= i < rivals@.len() && #[trigger] rivals@[i].order_id == old(self).order_id),
    {
        let ghost orig = *self;
        self.assay_result = Some(Overprint::new());
        let mut is_self_founded = false;
        let mut i: usize = 0;
        proof {
            assert(rivals@.take(0) =~= Seq::<Order>::empty());
        }
        while i < rivals.len()
            invariant
                i <= rivals@.len(),
                rivals@.len() < i64::MAX,
                same_order_but_standing(*self, orig),
                self.assay_result == Some(assay_of(orig.price, orig.order_id, rivals@.take(i as int))),
                is_self_founded == (exists|j: int|
                    0 <= j < i && #[trigger] rivals@[j].order_id == orig.order_id),
            decreases rivals@.len() - i,
        {
            let rival = &rivals[i];
            proof {
                lemma_assay_bounds(orig.price, orig.order_id, rivals@.take(i as int));
                assert(rivals@.take(i + 1).drop_last() =~= rivals@.take(i as int));
                assert(rivals@.take(i + 1).last() == rivals@[i as int]);
            }
            if rival.order_id == self.order_id {
                is_self_founded = true;
            } else {
                self.take_into_account(rival);
            }
            i += 1;
        }
        proof {
            assert(rivals@.take(i as int) =~= rivals@);
        }
        is_self_founded
    }

    /// The address of the public description of the order's item type.
    pub fn type_name_url(&self) -> (url: String)
        ensures
            url@ == type_name_url_of(self.type_id as int),
    {
        let mut url = String::from_str("https://esi.evetech.net/v3/universe/types/");
        crate::decimal::push_i64(&mut url, self.type_id);
        url.append("/");
        url
    }

    /// The word the market uses for the order's side.
    pub fn order_type(&self) -> (s: &'static str)
        ensures
            s@ == side_word(self.is_buy_order),
    {
        if self.is_buy_order {
            "buy"
        } else {
            "sell"
        }
    }

    /// What to tell the trader after an assay, given the order as it was
    /// saved after the previous one.
    pub fn render_assay_report(&self, previous: Option<&Order>) -> (r: Option<AssayReport>)
        requires
            self.assay_result is Some,
            previous matches Some(prev) ==> prev.assay_result is Some,
        ensures
            r == report_of(*self, owned(previous)),
    {
        let assay_result = match &self.assay_result {
            Some(a) => a,
            None => { return None; },
        };
        match previous {
            Some(prev) => {
                let prev_overprint = match &prev.assay_result {
                    Some(a) => a,
                    None => { return None; },
                };
                if prev_overprint.position == assay_result.position
                    && assay_result.analyzed == prev_overprint.analyzed {
                    return None;
                }
                if prev.price != self.price && assay_result.position == 0 {
                    return None;
                }
                if prev_overprint.position == assay_result.position && prev_overprint.analyzed != 0
                    && assay_result.analyzed == 0 {
                    return Some(AssayReport::NoAssay { price: self.price });
                }
                if prev_overprint.position != assay_result.position {
                    return Some(
                        AssayReport::PositionChanged {
                            previous_place: prev_overprint.position as i128 + 1,
                            place: assay_result.position as i128 + 1,
                            price: self.price,
                            best_price: assay_result.best_price,
                            is_buy_order: self.is_buy_order,
                        },
                    );
                }
                None
            },
            None => {
                if assay_result.position != 0 {
                    return Some(
                        AssayReport::Placed {
                            place: assay_result.position as i128 + 1,
                            of: assay_result.analyzed as i128 + 1,
                            price: self.price,
                            is_buy_order: self.is_buy_order,
                        },
                    );
                }
                None
            },
        }
    }
}


/// The field of an order document that is missing or of the wrong kind.
#[derive(Clone, Copy, Debug, PartialEq, Eq, Structural)]
pub enum OrderField {
    IsBuyOrder,
    OrderId,
    Price,
    TypeId,
    Position,
    StrongestRivalPrice,
    Analyzed,
}

/// The order that a market document describes, read field by field in the
/// order `is_buy_order`, `order_id`, `price`, `region_id`, `type_id`; the first
/// field missing is the error. Only `region_id` may be absent. A freshly read
/// order has a fresh standing.
pub open spec fn order_of_fields(
    is_buy_order: Option<bool>,
    order_id: Option<i64>,
    price: Option<u64>,
    region_id: Option<i64>,
    type_id: Option<i64>,
) -> Result<Order, OrderField> {
    if is_buy_order is None {
        Err(OrderField::IsBuyOrder)
    } else if order_id is None {
        Err(OrderField::OrderId)
    } else if price is None {
        Err(OrderField::Price)
    } else if type_id is None {
        Err(OrderField::TypeId)
    } else {
        Ok(
            Order {
                is_buy_order: is_buy_order->0,
                order_id: order_id->0,
                price: price_of_bits(price->0),
                region_id: region_id,
                type_id: type_id->0,
                assay_result: Some(
                    Overprint { position: 0, best_price: price::unset_price(), analyzed: 0 },
                ),
            },
        )
    }
}

/// The order that a document of the older format describes: it knows only
/// the price, the item type and the saved standing. Such an order is a sell
/// order with id -1 and no region. Fields are read in the order `price`,
/// `type_id`, `position`, `strongest_rival_price`, `analyzed`.
pub open spec fn order_of_obsolete_fields(
    price: PriceField,
    type_id: Option<i64>,
    position: Option<i64>,
    strongest_rival_price: PriceField,
    analyzed: Option<i64>,
) -> Result<Order, OrderField> {
    if price_of_field(price) is None {
        Err(OrderField::Price)
    } else if type_id is None {
        Err(OrderField::TypeId)
    } else if position is None {
        Err(OrderField::Position)
    } else if price_of_field(strongest_rival_price) is None {
        Err(OrderField::StrongestRivalPrice)
    } else if analyzed is None {
        Err(OrderField::Analyzed)
    } else {
        Ok(
            Order {
                is_buy_order: false,
                order_id: -1i64,
                price: price_of_field(price)->0,
                region_id: None,
                type_id: type_id->0,
                assay_result: Some(
                    Overprint {
                        position: position->0,
                        best_price: price_of_field(strongest_rival_price)->0,
                        analyzed: analyzed->0,
                    },
                ),
            },
        )
    }
}

impl Order {
    /// Builds an order from the fields of a market document.
    pub fn from_fields(
        is_buy_order: Option<bool>,
        order_id: Option<i64>,
        price: Option<u64>,
        region_id: Option<i64>,
        type_id: Option<i64>,
    ) -> (r: Result<Order, OrderField>)
        ensures
            r == order_of_fields(is_buy_order, order_id, price, region_id, type_id),
    {
        let is_buy_order = match is_buy_order {
            Some(b) => b,
            None => { return Err(OrderField::IsBuyOrder); },
        };
        let order_id = match order_id {
            Some(id) => id,
            None => { return Err(OrderField::OrderId); },
        };
        let price = match price {
            Some(bits) => Price::new(bits),
            None => { return Err(OrderField::Price); },
        };
        let type_id = match type_id {
            Some(t) => t,
            None => { return Err(OrderField::TypeId); },
        };
        Ok(
            Order {
                is_buy_order,
                order_id,
                price,
                region_id,
                type_id,
                assay_result: Some(Overprint::new()),
            },
        )
    }

    /// Builds an order from the fields of a document of the older format.
    pub fn from_obsolete_fields(
        price: PriceField,
        type_id: Option<i64>,
        position: Option<i64>,
        strongest_rival_price: PriceField,
        analyzed: Option<i64>,
    ) -> (r: Result<Order, OrderField>)
        ensures
            r == order_of_obsolete_fields(price, type_id, position, strongest_rival_price, analyzed),
    {
        let price = match Price::read_field(price) {
            Some(p) => p,
            None => { return Err(OrderField::Price); },
        };
        let type_id = match type_id {
            Some(t) => t,
            None => { return Err(OrderField::TypeId); },
        };
        let position = match position {
            Some(p) => p,
            None => { return Err(OrderField::Position); },
        };
        let best_price = match Price::read_field(strongest_rival_price) {
            Some(p) => p,
            None => { return Err(OrderField::StrongestRivalPrice); },
        };
        let analyzed = match analyzed {
            Some(a) => a,
            None => { return Err(OrderField::Analyzed); },
        };
        Ok(
            Order {
                is_buy_order: false,
                order_id: -1i64,
                price,
                type_id,
                region_id: None,
                assay_result: Some(Overprint { position, best_price, analyzed }),
            },
        )
    }
}


/// Where a field holds a number, the bit pattern of the `f64` it reads as is
/// at hand.
pub open spec fn bits_given(field: Option<JsonDoc>, bits: Option<u64>) -> bool {
    number_field_of(field) is Number ==> bits is Some
}

/// What `JsonValue::as_f64` reads from a field, given the bit pattern of the
/// `f64` a number there reads as: that pattern for a number, nothing else.
pub open spec fn price_bits_of(field: Option<JsonDoc>, bits: Option<u64>) -> Option<u64> {
    if number_field_of(field) is Number {
        bits
    } else {
        None
    }
}

/// A price field read as `Price::from` reads it, given the bit pattern of the
/// `f64` a number there reads as.
pub open spec fn price_field_of(field: Option<JsonDoc>, bits: Option<u64>) -> PriceField {
    match number_field_of(field) {
        NumberField::Null => PriceField::Null,
        NumberField::Number { .. } => PriceField::Number(bits->0),
        NumberField::Other => PriceField::Other,
    }
}

/// `JsonValue::as_f64` of a field, from the bit pattern its number reads as.
pub fn read_price_bits(field: Option<&JsonDoc>, bits: Option<u64>) -> (r: Option<u64>)
    ensures
        r == price_bits_of(owned_doc(field), bits),
{
    match read_number_field(field) {
        NumberField::Number { .. } => bits,
        _ => None,
    }
}

/// A price field, from the bit pattern its number reads as.
pub fn read_price_field(field: Option<&JsonDoc>, bits: Option<u64>) -> (r: PriceField)
    requires
        bits_given(owned_doc(field), bits),
    ensures
        r == price_field_of(owned_doc(field), bits),
{
    match read_number_field(field) {
        NumberField::Null => PriceField::Null,
        NumberField::Number { .. } => PriceField::Number(bits.unwrap()),
        NumberField::Other => PriceField::Other,
    }
}

/// The order that a market document describes (see `order_of_fields`),
/// given the bit pattern of the `f64` its `price` number reads as.
pub open spec fn order_of_json(doc: JsonDoc, price_bits: Option<u64>) -> Result<Order, OrderField> {
    order_of_fields(
        bool_of(field_of(doc, "is_buy_order"@)),
        i64_of(field_of(doc, "order_id"@)),
        price_bits_of(field_of(doc, "price"@), price_bits),
        i64_of(field_of(doc, "region_id"@)),
        i64_of(field_of(doc, "type_id"@)),
    )
}

/// The order that a document of the older format describes (see
/// `order_of_obsolete_fields`), given the bit patterns of the `f64`s its
/// price numbers read as.
pub open spec fn order_of_obsolete_json(
    doc: JsonDoc,
    price_bits: Option<u64>,
    strongest_rival_price_bits: Option<u64>,
) -> Result<Order, OrderField> {
    order_of_obsolete_fields(
        price_field_of(field_of(doc, "price"@), price_bits),
        i64_of(field_of(doc, "type_id"@)),
        i64_of(field_of(doc, "position"@)),
        price_field_of(field_of(doc, "strongest_rival_price"@), strongest_rival_price_bits),
        i64_of(field_of(doc, "analyzed"@)),
    )
}

impl Order {
    /// Reads an order of a market document, or names the first field that
    /// is missing or of the wrong kind. `price_bits` is the bit pattern of
    /// the `f64` that the `price` number reads as, where it is a number.
    pub fn read_json(doc: &JsonDoc, price_bits: Option<u64>) -> (r: Result<Order, OrderField>)
        ensures
            r == order_of_json(*doc, price_bits),
    {
        Order::from_fields(
            read_bool(doc.get("is_buy_order")),
            read_i64(doc.get("order_id")),
            read_price_bits(doc.get("price"), price_bits),
            read_i64(doc.get("region_id")),
            read_i64(doc.get("type_id")),
        )
    }

    /// The order of a well-formed market document (`read_json` tells
    /// whether it is one).
    pub fn from_json(doc: &JsonDoc, price_bits: Option<u64>) -> (o: Order)
        requires
            order_of_json(*doc, price_bits) is Ok,
        ensures
            o == order_of_json(*doc, price_bits)->Ok_0,
    {
        Order::read_json(doc, price_bits).unwrap()
    }

    /// Reads an order of a document of the older format, or names the first
    /// field that is missing or of the wrong kind, given the bit patterns of
    /// the `f64`s that its `price` and `strongest_rival_price` numbers read as.
    pub fn read_obsolete_json(
        doc: &JsonDoc,
        price_bits: Option<u64>,
        strongest_rival_price_bits: Option<u64>,
    ) -> (r: Result<Order, OrderField>)
        requires
            bits_given(field_of(*doc, "price"@), price_bits),
            bits_given(field_of(*doc, "strongest_rival_price"@), strongest_rival_price_bits),
        ensures
            r == order_of_obsolete_json(*doc, price_bits, strongest_rival_price_bits),
    {
        let price = read_price_field(doc.get("price"), price_bits);
        let type_id = read_i64(doc.get("type_id"));
        let position = read_i64(doc.get("position"));
        let best = read_price_field(doc.get("strongest_rival_price"), strongest_rival_price_bits);
        let analyzed = read_i64(doc.get("analyzed"));
        Order::from_obsolete_fields(price, type_id, position, best, analyzed)
    }

    /// The order of a well-formed document of the older format
    /// (`read_obsolete_json` tells whether it is one).
    pub fn from_obsolete_json(
        doc: &JsonDoc,
        price_bits: Option<u64>,
        strongest_rival_price_bits: Option<u64>,
    ) -> (o: Order)
        requires
            bits_given(field_of(*doc, "price"@), price_bits),
            bits_given(field_of(*doc, "strongest_rival_price"@), strongest_rival_price_bits),
            order_of_obsolete_json(*doc, price_bits, strongest_rival_price_bits) is Ok,
        ensures
            o == order_of_obsolete_json(*doc, price_bits, strongest_rival_price_bits)->Ok_0,
    {
        Order::read_obsolete_json(doc, price_bits, strongest_rival_price_bits).unwrap()
    }

    /// The name of an item type, from the document that `type_name_url`
    /// answers with: `JsonValue::to_string` of its `name` field.
    pub fn type_name_of(answer: &JsonDoc) -> (r: String)
        ensures
            r@ == text_of(field_of(*answer, "name"@)),
    {
        read_text(answer.get("name"))
    }
}

/// The orders of a list keyed by their ids; of orders sharing an id the
/// last one stays.
pub open spec fn index_of_orders(list: Seq<Order>) -> Map<i64, Order>
    decreases list.len(),
{
    if list.len() == 0 {
        Map::empty()
    } else {
        index_of_orders(list.drop_last()).insert(list.last().order_id, list.last())
    }
}

/// Keys the orders of a list by their ids; the last of orders sharing an
/// id wins.
pub fn orders_by_id(list: &Vec<Order>) -> (m: HashMap<i64, Order>)
    ensures
        m@ == index_of_orders(list@),
{
    let mut result: HashMap<i64, Order> = HashMap::new();
    let mut i: usize = 0;
    while i < list.len()
        invariant
            i <= list@.len(),
            result@ == index_of_orders(list@.take(i as int)),
        decreases list@.len() - i,
    {
        let order = list[i];
        proof {
            assert(list@.take(i + 1).drop_last() =~= list@.take(i as int));
        }
        result.insert(order.order_id, order);
        i += 1;
    }
    proof {
        assert(list@.take(i as int) =~= list@);
    }
    result
}

/// Keying orders by id: every order of the list is reachable by its id, the
/// order kept for an id has that id, and it is the last one with that id.
pub proof fn lemma_index_of_orders(list: Seq<Order>)
    ensures
        forall|id: i64| #[trigger] index_of_orders(list).contains_key(id) <==> exists|i: int|
            0 <= i < list.len() && #[trigger] list[i].order_id == id,
        forall|id: i64| #[trigger] index_of_orders(list).contains_key(id) ==> exists|i: int|
            0 <= i < list.len() && list[i] == index_of_orders(list)[id] && list[i].order_id == id
                && forall|j: int| i < j < list.len() ==> #[trigger] list[j].order_id != id,
    decreases list.len(),
{
    if list.len() > 0 {
        let init = list.drop_last();
        lemma_index_of_orders(init);
        let n = list.len() - 1;
        assert forall|id: i64| #[trigger] index_of_orders(list).contains_key(id) <==> exists|i: int|
            0 <= i < list.len() && #[trigger] list[i].order_id == id by {
            if index_of_orders(list).contains_key(id) {
                if id == list.last().order_id {
                    assert(list[n].order_id == id);
                } else {
                    assert(index_of_orders(init).contains_key(id));
                    let i = choose|i: int| 0 <= i < init.len() && #[trigger] init[i].order_id == id;
                    assert(list[i] == init[i]);
                }
            }
            if exists|i: int| 0 <= i < list.len() && #[trigger] list[i].order_id == id {
                let i = choose|i: int| 0 <= i < list.len() && #[trigger] list[i].order_id == id;
                if i < n {
                    assert(init[i] == list[i]);
                    assert(index_of_orders(init).contains_key(id));
                }
            }
        }
        assert forall|id: i64| #[trigger] index_of_orders(list).contains_key(id) implies exists|i: int|
            0 <= i < list.len() && list[i] == index_of_orders(list)[id] && list[i].order_id == id
                && forall|j: int| i < j < list.len() ==> #[trigger] list[j].order_id != id by {
            if id == list.last().order_id {
                assert(list[n] == index_of_orders(list)[id]);
            } else {
                assert(index_of_orders(init).contains_key(id));
                let i = choose|i: int|
                    0 <= i < init.len() && init[i] == index_of_orders(init)[id] && init[i].order_id
                        == id && forall|j: int| i < j < init.len() ==> #[trigger] init[j].order_id != id;
                assert(list[i] == init[i]);
                assert forall|j: int| i < j < list.len() implies #[trigger] list[j].order_id != id by {
                    if j < n {
                        assert(list[j] == init[j]);
                    }
                }
            }
        }
    }
}


/// The rivals an assay counts: all but the order itself.
pub open spec fn counted_rivals(id: i64, rivals: Seq<Order>) -> Seq<Order> {
    rivals.filter(|r: Order| r.order_id != id)
}

/// The counted rivals that offer a better price than `price`.
pub open spec fn rivals_ahead(price: Price, id: i64, rivals: Seq<Order>) -> Seq<Order> {
    rivals.filter(|r: Order| r.order_id != id && rival_ahead(price, r))
}

/// An assay counts every rival but the order itself, and the order's place
/// is the number of counted rivals that offer a better price.
pub proof fn lemma_assay_counts(price: Price, id: i64, rivals: Seq<Order>)
    requires
        rivals.len() < i64::MAX,
    ensures
        assay_of(price, id, rivals).analyzed == counted_rivals(id, rivals).len(),
        assay_of(price, id, rivals).position == rivals_ahead(price, id, rivals).len(),
    decreases rivals.len(),
{
    reveal(Seq::filter);
    if rivals.len() > 0 {
        lemma_assay_counts(price, id, rivals.drop_last());
        lemma_assay_bounds(price, id, rivals.drop_last());
    }
}

/// Whether a counted rival (not the order `id` itself) has a number price.
pub open spec fn priced_rival(id: i64, r: Order) -> bool {
    r.order_id != id && is_number(r.price)
}

/// Among sell orders the best rival price is the lowest price of a counted
/// rival, NaN prices passed over; it is NaN only when no counted rival has
/// a number price.
pub proof fn lemma_best_sell_price(price: Price, id: i64, rivals: Seq<Order>)
    requires
        forall|i: int| 0 <= i < rivals.len() ==> !(#[trigger] rivals[i]).is_buy_order,
    ensures
        is_number(assay_of(price, id, rivals).best_price) <==> exists|i: int|
            0 <= i < rivals.len() && #[trigger] priced_rival(id, rivals[i]),
        is_number(assay_of(price, id, rivals).best_price) ==> exists|i: int|
            0 <= i < rivals.len() && priced_rival(id, rivals[i]) && #[trigger] rivals[i].price
                == assay_of(price, id, rivals).best_price,
        forall|i: int|
            0 <= i < rivals.len() && #[trigger] priced_rival(id, rivals[i]) ==> assay_of(
                price,
                id,
                rivals,
            ).best_price@->0 <= rivals[i].price@->0,
    decreases rivals.len(),
{
    if rivals.len() > 0 {
        let init = rivals.drop_last();
        let n = rivals.len() - 1;
        let r = rivals[n];
        assert forall|i: int| 0 <= i < init.len() implies !(#[trigger] init[i]).is_buy_order by {
            assert(init[i] == rivals[i]);
        }
        lemma_best_sell_price(price, id, init);
        let before = assay_of(price, id, init).best_price;
        let after = assay_of(price, id, rivals).best_price;
        assert(!(rivals[n]).is_buy_order);
        if exists|i: int| 0 <= i < rivals.len() && #[trigger] priced_rival(id, rivals[i]) {
            let i = choose|i: int| 0 <= i < rivals.len() && #[trigger] priced_rival(id, rivals[i]);
            if i < n {
                assert(init[i] == rivals[i]);
                assert(priced_rival(id, init[i]));
            }
        }
        if exists|i: int| 0 <= i < init.len() && #[trigger] priced_rival(id, init[i]) {
            let i = choose|i: int| 0 <= i < init.len() && #[trigger] priced_rival(id, init[i]);
            assert(init[i] == rivals[i]);
            assert(priced_rival(id, rivals[i]));
        }
        if is_number(before) {
            let i = choose|i: int|
                0 <= i < init.len() && priced_rival(id, init[i]) && #[trigger] init[i].price == before;
            assert(init[i] == rivals[i]);
        }
        if r.order_id == id {
            assert(after == before);
        } else {
            assert(after == min_price(before, r.price));
            if is_number(after) && after == r.price {
                assert(priced_rival(id, rivals[n]));
            }
        }
        assert forall|i: int|
            0 <= i < rivals.len() && #[trigger] priced_rival(id, rivals[i]) implies after@->0 <= rivals[i].price@->0 by {
            if i < n {
                assert(init[i] == rivals[i]);
                assert(priced_rival(id, init[i]));
            }
        }
    }
}

/// Among buy orders the best rival price is the highest price of a counted
/// rival, NaN prices passed over; it is NaN only when no counted rival has
/// a number price.
pub proof fn lemma_best_buy_price(price: Price, id: i64, rivals: Seq<Order>)
    requires
        forall|i: int| 0 <= i < rivals.len() ==> (#[trigger] rivals[i]).is_buy_order,
    ensures
        is_number(assay_of(price, id, rivals).best_price) <==> exists|i: int|
            0 <= i < rivals.len() && #[trigger] priced_rival(id, rivals[i]),
        is_number(assay_of(price, id, rivals).best_price) ==> exists|i: int|
            0 <= i < rivals.len() && priced_rival(id, rivals[i]) && #[trigger] rivals[i].price
                == assay_of(price, id, rivals).best_price,
        forall|i: int|
            0 <= i < rivals.len() && #[trigger] priced_rival(id, rivals[i]) ==> rivals[i].price@->0
                <= assay_of(price, id, rivals).best_price@->0,
    decreases rivals.len(),
{
    if rivals.len() > 0 {
        let init = rivals.drop_last();
        let n = rivals.len() - 1;
        let r = rivals[n];
        assert forall|i: int| 0 <= i < init.len() implies (#[trigger] init[i]).is_buy_order by {
            assert(init[i] == rivals[i]);
        }
        lemma_best_buy_price(price, id, init);
        let before = assay_of(price, id, init).best_price;
        let after = assay_of(price, id, rivals).best_price;
        assert((rivals[n]).is_buy_order);
        if exists|i: int| 0 <= i < rivals.len() && #[trigger] priced_rival(id, rivals[i]) {
            let i = choose|i: int| 0 <= i < rivals.len() && #[trigger] priced_rival(id, rivals[i]);
            if i < n {
                assert(init[i] == rivals[i]);
                assert(priced_rival(id, init[i]));
            }
        }
        if exists|i: int| 0 <= i < init.len() && #[trigger] priced_rival(id, init[i]) {
            let i = choose|i: int| 0 <= i < init.len() && #[trigger] priced_rival(id, init[i]);
            assert(init[i] == rivals[i]);
            assert(priced_rival(id, rivals[i]));
        }
        if is_number(before) {
            let i = choose|i: int|
                0 <= i < init.len() && priced_rival(id, init[i]) && #[trigger] init[i].price == before;
            assert(init[i] == rivals[i]);
        }
        if r.order_id == id {
            assert(after == before);
        } else {
            assert(after == max_price(before, r.price));
            if is_number(after) && after == r.price {
                assert(priced_rival(id, rivals[n]));
            }
        }
        assert forall|i: int|
            0 <= i < rivals.len() && #[trigger] priced_rival(id, rivals[i]) implies rivals[i].price@->0 <= after@->0 by {
            if i < n {
                assert(init[i] == rivals[i]);
                assert(priced_rival(id, init[i]));
            }
        }
    }
}

/// A report is only made of a change: a place that moved, rivals that all
/// went away, or a new order that is not first. An order whose place and
/// rival count are as they were, and a new order that is first, are not
/// reported.
pub proof fn lemma_report_only_on_change(o: Order, previous: Option<Order>)
    ensures
        report_of(o, previous) is Some ==> match previous {
            Some(prev) => prev.assay_result->0.position != o.assay_result->0.position
                || rivals_gone(o.assay_result->0, prev.assay_result->0),
            None => o.assay_result->0.position != 0,
        },
        previous matches Some(prev) && standing_unchanged(o.assay_result->0, prev.assay_result->0)
            ==> report_of(o, previous) is None,
        previous is None && o.assay_result->0.position == 0 ==> report_of(o, previous) is None,
{
}


/// A change of place is reported, whatever the two prices are, unless the
/// order is first now: the report gives both places, counted from 1, the
/// order's price and side, and the best rival price.
pub proof fn lemma_place_change_reported(o: Order, prev: Order)
    requires
        o.assay_result is Some,
        prev.assay_result is Some,
        o.assay_result->0.position != prev.assay_result->0.position,
        o.assay_result->0.position != 0,
    ensures
        report_of(o, Some(prev)) == Some(
            AssayReport::PositionChanged {
                previous_place: (prev.assay_result->0.position + 1) as i128,
                place: (o.assay_result->0.position + 1) as i128,
                price: o.price,
                best_price: o.assay_result->0.best_price,
                is_buy_order: o.is_buy_order,
            },
        ),
{
}

/// An order the trader repriced and that is first now is not reported;
/// nor is one whose place and rival count are as before.
pub proof fn lemma_silent_reports(o: Order, prev: Order)
    requires
        o.assay_result is Some,
        prev.assay_result is Some,
    ensures
        !same_price(prev.price, o.price) && o.assay_result->0.position == 0 ==> report_of(o, Some(prev)) is None,
        o.assay_result->0.position == prev.assay_result->0.position && o.assay_result->0.analyzed
            == prev.assay_result->0.analyzed ==> report_of(o, Some(prev)) is None,
{
}

/// An order whose rivals all went away while it kept its place is reported
/// as having no rivals, unless it is a repriced order that is first.
pub proof fn lemma_rivals_gone_reported(o: Order, prev: Order)
    requires
        o.assay_result is Some,
        prev.assay_result is Some,
        o.assay_result->0.position == prev.assay_result->0.position,
        prev.assay_result->0.analyzed != 0,
        o.assay_result->0.analyzed == 0,
        !(o.assay_result->0.position == 0 && !same_price(prev.price, o.price)),
    ensures
        report_of(o, Some(prev)) == Some(AssayReport::NoAssay { price: o.price }),
{
}

/// A new order that is not first is reported with its place and the number
/// of offers, both counted from 1; a new order that is first is not.
pub proof fn lemma_new_order_reported(o: Order)
    requires
        o.assay_result is Some,
    ensures
        o.assay_result->0.position != 0 ==> report_of(o, None) == Some(
            AssayReport::Placed {
                place: (o.assay_result->0.position + 1) as i128,
                of: (o.assay_result->0.analyzed + 1) as i128,
                price: o.price,
                is_buy_order: o.is_buy_order,
            },
        ),
        o.assay_result->0.position == 0 ==> report_of(o, None) is None,
{
}

/// Every message names the item, and a message about a place names the
/// order's own side (`buy` for a buy order, `sell` for a sell order) and its
/// places in decimal: a change from the previous place to the new one, or
/// the place among the offers.
pub proof fn lemma_message_names_item_and_side(
    r: AssayReport,
    item: Seq<char>,
    price: Seq<char>,
    best_price: Seq<char>,
    delta: Seq<char>,
)
    ensures
        r is NoAssay ==> starts_with(report_message(r, item, price, best_price, delta), "Item *"@ + item + "* (`"@)
            && ends_with(report_message(r, item, price, best_price, delta), price + "`) don't have any assay"@),
        r matches AssayReport::PositionChanged { previous_place, place, .. } ==> starts_with(
            report_message(r, item, price, best_price, delta),
            int_decimal(previous_place as int) + " \u{226b} "@ + int_decimal(place as int) + " \u{394}P = "@ + delta
                + " \u{2212} "@ + price + " = "@ + best_price + "; "@,
        ),
        r matches AssayReport::Placed { place, of, .. } ==> ends_with(
            report_message(r, item, price, best_price, delta),
            " in `"@ + int_decimal(place as int) + ":"@ + int_decimal(of as int) + "` price "@ + price,
        ),
        r matches AssayReport::PositionChanged { is_buy_order, .. } ==> ends_with(
            report_message(r, item, price, best_price, delta),
            "; "@ + (if is_buy_order {
                "buy"@
            } else {
                "sell"@
            }) + " *"@ + item + "*"@,
        ),
        r matches AssayReport::Placed { is_buy_order, .. } ==> starts_with(
            report_message(r, item, price, best_price, delta),
            "Order *"@ + item + "* "@ + (if is_buy_order {
                "buy"@
            } else {
                "sell"@
            }) + " in `"@,
        ),
{
    match r {
        AssayReport::NoAssay { .. } => lemma_no_assay_message(r, item, price, best_price, delta),
        AssayReport::PositionChanged { .. } => lemma_place_change_message(r, item, price, best_price, delta),
        AssayReport::Placed { .. } => lemma_placed_message(r, item, price, best_price, delta),
    }
}

proof fn lemma_no_assay_message(r: AssayReport, item: Seq<char>, price: Seq<char>, best_price: Seq<char>, delta: Seq<char>)
    requires
        r is NoAssay,
    ensures
        starts_with(report_message(r, item, price, best_price, delta), "Item *"@ + item + "* (`"@),
        ends_with(report_message(r, item, price, best_price, delta), price + "`) don't have any assay"@),
{
    let m = report_message(r, item, price, best_price, delta);
    let head = "Item *"@ + item + "* (`"@;
    assert(m =~= head + (price + "`) don't have any assay"@));
    lemma_joined(head, price + "`) don't have any assay"@);
}

proof fn lemma_place_change_message(
    r: AssayReport,
    item: Seq<char>,
    price: Seq<char>,
    best_price: Seq<char>,
    delta: Seq<char>,
)
    requires
        r is PositionChanged,
    ensures
        starts_with(
            report_message(r, item, price, best_price, delta),
            int_decimal(r->previous_place as int) + " \u{226b} "@ + int_decimal(r->PositionChanged_place as int)
                + " \u{394}P = "@ + delta + " \u{2212} "@ + price + " = "@ + best_price + "; "@,
        ),
        ends_with(
            report_message(r, item, price, best_price, delta),
            "; "@ + (if r->PositionChanged_is_buy_order {
                "buy"@
            } else {
                "sell"@
            }) + " *"@ + item + "*"@,
        ),
{
    let m = report_message(r, item, price, best_price, delta);
    let side = if r->PositionChanged_is_buy_order {
        "buy"@
    } else {
        "sell"@
    };
    let head = int_decimal(r->previous_place as int) + " \u{226b} "@ + int_decimal(r->PositionChanged_place as int)
        + " \u{394}P = "@ + delta + " \u{2212} "@ + price + " = "@ + best_price;
    let tail = "; "@ + side + " *"@ + item + "*"@;
    assert(m =~= head + tail);
    lemma_joined(head, tail);
    let front = head + "; "@;
    assert(m =~= front + (side + " *"@ + item + "*"@));
    lemma_joined(front, side + " *"@ + item + "*"@);
}

proof fn lemma_placed_message(r: AssayReport, item: Seq<char>, price: Seq<char>, best_price: Seq<char>, delta: Seq<char>)
    requires
        r is Placed,
    ensures
        ends_with(
            report_message(r, item, price, best_price, delta),
            " in `"@ + int_decimal(r->Placed_place as int) + ":"@ + int_decimal(r->of as int) + "` price "@ + price,
        ),
        starts_with(
            report_message(r, item, price, best_price, delta),
            "Order *"@ + item + "* "@ + (if r->Placed_is_buy_order {
                "buy"@
            } else {
                "sell"@
            }) + " in `"@,
        ),
{
    let m = report_message(r, item, price, best_price, delta);
    let side = if r->Placed_is_buy_order {
        "buy"@
    } else {
        "sell"@
    };
    let head = "Order *"@ + item + "* "@ + side + " in `"@;
    let tail = int_decimal(r->Placed_place as int) + ":"@ + int_decimal(r->of as int) + "` price "@ + price;
    assert(m =~= head + tail);
    lemma_joined(head, tail);
    let front = "Order *"@ + item + "* "@ + side;
    assert(m =~= front + (" in `"@ + tail));
    lemma_joined(front, " in `"@ + tail);
    assert(" in `"@ + tail =~= " in `"@ + int_decimal(r->Placed_place as int) + ":"@ + int_decimal(r->of as int)
        + "` price "@ + price);
}

/// An order read from its fields is the order those fields give: its side,
/// id, price (by its bits), region and item type, with a fresh standing.
pub proof fn lemma_order_fields_read_as_given(b: bool, id: i64, bits: u64, region: Option<i64>, t: i64)
    ensures
        order_of_fields(Some(b), Some(id), Some(bits), region, Some(t)) == Ok::<Order, OrderField>(
            Order {
                is_buy_order: b,
                order_id: id,
                price: price_of_bits(bits),
                region_id: region,
                type_id: t,
                assay_result: Some(
                    Overprint { position: 0, best_price: price::unset_price(), analyzed: 0 },
                ),
            },
        ),
{
}

/// The first of the fields `is_buy_order`, `order_id`, `price`, `type_id`
/// that is missing is the error; a missing region is no error.
pub proof fn lemma_order_fields_first_missing(
    b: Option<bool>,
    id: Option<i64>,
    bits: Option<u64>,
    region: Option<i64>,
    t: Option<i64>,
)
    ensures
        b is None ==> order_of_fields(b, id, bits, region, t) == Err::<Order, OrderField>(OrderField::IsBuyOrder),
        b is Some && id is None ==> order_of_fields(b, id, bits, region, t) == Err::<Order, OrderField>(
            OrderField::OrderId,
        ),
        b is Some && id is Some && bits is None ==> order_of_fields(b, id, bits, region, t) == Err::<
            Order,
            OrderField,
        >(OrderField::Price),
        b is Some && id is Some && bits is Some && t is None ==> order_of_fields(b, id, bits, region, t)
            == Err::<Order, OrderField>(OrderField::TypeId),
        b is Some && id is Some && bits is Some && t is Some ==> order_of_fields(b, id, bits, region, t) is Ok,
{
}

/// An order of the older format is a sell order with id -1 and no region,
/// holding the price, item type and saved standing its fields give.
pub proof fn lemma_obsolete_fields_read_as_given(price: Price, t: i64, position: i64, best: Price, analyzed: i64, price_field: PriceField, best_field: PriceField)
    requires
        price_of_field(price_field) == Some(price),
        price_of_field(best_field) == Some(best),
    ensures
        order_of_obsolete_fields(price_field, Some(t), Some(position), best_field, Some(analyzed)) == Ok::<
            Order,
            OrderField,
        >(
            Order {
                is_buy_order: false,
                order_id: -1i64,
                price,
                region_id: None,
                type_id: t,
                assay_result: Some(Overprint { position, best_price: best, analyzed }),
            },
        ),
        price_of_field(PriceField::Other) is None,
        price_of_field(PriceField::Null) == Some(price::unset_price()),
{
}


/// A price field that holds a number reads as the bit pattern given for it;
/// `null` or a missing field is the unset price where a price may be unset
/// and no price where one is needed; any other value is no price.
pub proof fn lemma_price_fields_read(field: Option<JsonDoc>, bits: u64)
    ensures
        number_field_of(field) is Number ==> price_bits_of(field, Some(bits)) == Some(bits)
            && price_field_of(field, Some(bits)) == PriceField::Number(bits),
        number_field_of(field) is Null ==> price_bits_of(field, Some(bits)) is None && price_field_of(
            field,
            Some(bits),
        ) == PriceField::Null,
        number_field_of(field) is Other ==> price_bits_of(field, Some(bits)) is None && price_field_of(
            field,
            Some(bits),
        ) == PriceField::Other,
{
}

/// A market document with a boolean side, integer id and item type, a
/// number price and an integer region (or none) reads as the order those
/// values give, with a fresh standing.
pub proof fn lemma_order_json_reads_fields(
    doc: JsonDoc,
    b: bool,
    id: i64,
    t: i64,
    bits: u64,
    region: Option<i64>,
)
    requires
        field_of(doc, "is_buy_order"@) == Some(JsonDoc::Bool(b)),
        field_of(doc, "order_id"@) == Some(integer_doc(id)),
        field_of(doc, "type_id"@) == Some(integer_doc(t)),
        number_field_of(field_of(doc, "price"@)) is Number,
        match region {
            Some(r) => field_of(doc, "region_id"@) == Some(integer_doc(r)),
            None => field_of(doc, "region_id"@) is None,
        },
    ensures
        order_of_json(doc, Some(bits)) == Ok::<Order, OrderField>(
            Order {
                is_buy_order: b,
                order_id: id,
                price: price_of_bits(bits),
                region_id: region,
                type_id: t,
                assay_result: Some(
                    Overprint { position: 0, best_price: price::unset_price(), analyzed: 0 },
                ),
            },
        ),
{
    lemma_integers_read_back(id, true, 0, 0);
    lemma_integers_read_back(t, true, 0, 0);
    if let Some(r) = region {
        lemma_integers_read_back(r, true, 0, 0);
    }
}

/// A document of the older format with integer item type, position and
/// count and number or `null` prices reads as the sell order with id -1
/// that those values give.
pub proof fn lemma_obsolete_json_reads_fields(
    doc: JsonDoc,
    t: i64,
    position: i64,
    analyzed: i64,
    price_bits: Option<u64>,
    best_bits: Option<u64>,
)
    requires
        field_of(doc, "type_id"@) == Some(integer_doc(t)),
        field_of(doc, "position"@) == Some(integer_doc(position)),
        field_of(doc, "analyzed"@) == Some(integer_doc(analyzed)),
        number_field_of(field_of(doc, "price"@)) is Number <==> price_bits is Some,
        number_field_of(field_of(doc, "strongest_rival_price"@)) is Number <==> best_bits is Some,
        number_field_of(field_of(doc, "price"@)) !is Other,
        number_field_of(field_of(doc, "strongest_rival_price"@)) !is Other,
    ensures
        order_of_obsolete_json(doc, price_bits, best_bits) == Ok::<Order, OrderField>(
            Order {
                is_buy_order: false,
                order_id: -1i64,
                price: match price_bits {
                    Some(p) => price_of_bits(p),
                    None => price::unset_price(),
                },
                region_id: None,
                type_id: t,
                assay_result: Some(
                    Overprint {
                        position,
                        best_price: match best_bits {
                            Some(p) => price_of_bits(p),
                            None => price::unset_price(),
                        },
                        analyzed,
                    },
                ),
            },
        ),
{
    lemma_integers_read_back(t, true, 0, 0);
    lemma_integers_read_back(position, true, 0, 0);
    lemma_integers_read_back(analyzed, true, 0, 0);
}


/// A buy rival is ahead exactly when its price is the higher number, a sell
/// rival exactly when its price is the lower number; with a NaN on either
/// side nobody is ahead.
pub proof fn lemma_rival_ahead(price: Price, rival: Order)
    ensures
        rival.is_buy_order ==> (rival_ahead(price, rival) <==> is_number(price) && is_number(rival.price)
            && price@->0 < rival.price@->0),
        !rival.is_buy_order ==> (rival_ahead(price, rival) <==> is_number(price) && is_number(rival.price)
            && rival.price@->0 < price@->0),
{
}

/// Looking at one rival counts it, moves the order back one place exactly
/// when the rival is ahead, and keeps the higher buy price or the lower
/// sell price as the best rival price.
pub proof fn lemma_account_one_rival(o: Overprint, price: Price, rival: Order)
    requires
        !account_overflows(o, price, rival),
    ensures
        account_rival(o, price, rival).analyzed == o.analyzed + 1,
        account_rival(o, price, rival).position == o.position + if rival_ahead(price, rival) {
            1int
        } else {
            0int
        },
        rival.is_buy_order && is_number(o.best_price) && is_number(rival.price) ==> account_rival(
            o,
            price,
            rival,
        ).best_price@->0 == if o.best_price@->0 < rival.price@->0 {
            rival.price@->0
        } else {
            o.best_price@->0
        },
        !rival.is_buy_order && is_number(o.best_price) && is_number(rival.price) ==> account_rival(
            o,
            price,
            rival,
        ).best_price@->0 == if rival.price@->0 < o.best_price@->0 {
            rival.price@->0
        } else {
            o.best_price@->0
        },
{
}


/// The address that describes an item type.
pub open spec fn type_name_url_of(type_id: int) -> Seq<char> {
    "https://esi.evetech.net/v3/universe/types/"@ + int_decimal(type_id) + "/"@
}

/// The two sides have the words `buy` and `sell`, which differ.
pub proof fn lemma_side_words()
    ensures
        side_word(true) == "buy"@,
        side_word(false) == "sell"@,
        side_word(true) != side_word(false),
{
    reveal_strlit("buy");
    reveal_strlit("sell");
    assert("buy"@.len() != "sell"@.len());
}

/// The address of an item type is on the universe types API and ends with
/// the type's id in decimal; different types have different addresses.
pub proof fn lemma_type_name_url(t: i64, u: i64)
    ensures
        starts_with(type_name_url_of(t as int), "https://esi.evetech.net/v3/universe/types/"@),
        ends_with(type_name_url_of(t as int), int_decimal(t as int) + "/"@),
        t != u ==> type_name_url_of(t as int) != type_name_url_of(u as int),
{
    let head = "https://esi.evetech.net/v3/universe/types/"@;
    let a = type_name_url_of(t as int);
    let b = type_name_url_of(u as int);
    assert(a =~= head + (int_decimal(t as int) + "/"@));
    lemma_joined(head, int_decimal(t as int) + "/"@);
    assert(b =~= head + (int_decimal(u as int) + "/"@));
    if a == b {
        reveal_strlit("/");
        assert(a.subrange(head.len() as int, a.len() - 1) =~= int_decimal(t as int));
        assert(b.subrange(head.len() as int, b.len() - 1) =~= int_decimal(u as int));
        crate::character::lemma_decimal_reads_back(t);
        crate::character::lemma_decimal_reads_back(u);
    }
}

} // verus!
