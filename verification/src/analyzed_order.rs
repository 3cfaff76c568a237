//! Orders of the older kind, which carry their standing inline and start
//! the strongest rival price at zero rather than at NaN.
use vstd::prelude::*;
use core::cmp::Ordering;
use crate::order::price::{Price, price_order, same_price, price_of_bits, is_number};
use crate::order::{OrderField, price_bits_of, read_price_bits};
use crate::json_doc::{JsonDoc, field_of, bool_of, i64_of, read_bool, read_i64};

verus! {

broadcast use crate::order::price::group_price_bits;

/// How an order with price `price` stands against its rivals; a strongest
/// rival price of zero means none was seen.
#[derive(Clone, Copy)]
pub struct OrderAnalyze {
    pub position: i64,
    pub price: Price,
    pub strongest_rival_price: Price,
    pub analyzed: i64,
}

/// A market order that carries its standing.
#[derive(Clone, Copy)]
pub struct Order {
    pub is_buy_order: bool,
    pub order_id: i64,
    pub price: Price,
    pub region_id: Option<i64>,
    pub type_id: i64,
    pub assay_result: OrderAnalyze,
}

/// The price zero (`0f64`).
pub open spec fn zero_price() -> Price {
    price_of_bits(0)
}

/// Whether a rival offers a better price than `price`.
pub open spec fn ahead_of(price: Price, rival: Order) -> bool {
    if rival.is_buy_order {
        price_order(price, rival.price) == Some(Ordering::Less)
    } else {
        price_order(price, rival.price) == Some(Ordering::Greater)
    }
}

/// The strongest rival price after `rival`: among buy orders the rival's
/// price unless the kept one is higher; among sell orders the rival's price
/// unless the kept one is lower and not zero.
pub open spec fn strongest_after(kept: Price, rival: Order) -> Price {
    if rival.is_buy_order {
        if price_order(kept, rival.price) == Some(Ordering::Greater) {
            kept
        } else {
            rival.price
        }
    } else {
        if price_order(kept, rival.price) == Some(Ordering::Less) && !same_price(kept, zero_price()) {
            kept
        } else {
            rival.price
        }
    }
}

/// The standing after one more rival.
pub open spec fn analyze_rival(a: OrderAnalyze, rival: Order) -> OrderAnalyze {
    OrderAnalyze {
        position: if ahead_of(a.price, rival) {
            (a.position + 1) as i64
        } else {
            a.position
        },
        price: a.price,
        strongest_rival_price: strongest_after(a.strongest_rival_price, rival),
        analyzed: (a.analyzed + 1) as i64,
    }
}

/// The standing `start` after the rivals `rivals` other than the order `id`.
pub open spec fn analyze_rivals(start: OrderAnalyze, id: i64, rivals: Seq<Order>) -> OrderAnalyze
    decreases rivals.len(),
{
    if rivals.len() == 0 {
        start
    } else {
        let before = analyze_rivals(start, id, rivals.drop_last());
        if rivals.last().order_id == id {
            before
        } else {
            analyze_rival(before, rivals.last())
        }
    }
}

/// Counting the rivals other than `id` adds at most their number to each
/// counter, and never lowers one.
pub proof fn lemma_analyze_rivals_bounds(start: OrderAnalyze, id: i64, rivals: Seq<Order>)
    requires
        start.position + rivals.len() <= i64::MAX,
        start.analyzed + rivals.len() <= i64::MAX,
    ensures
        start.position <= analyze_rivals(start, id, rivals).position <= start.position + rivals.len(),
        start.analyzed <= analyze_rivals(start, id, rivals).analyzed <= start.analyzed + rivals.len(),
        analyze_rivals(start, id, rivals).position - start.position
            <= analyze_rivals(start, id, rivals).analyzed - start.analyzed,
        analyze_rivals(start, id, rivals).price == start.price,
    decreases rivals.len(),
{
    if rivals.len() > 0 {
        lemma_analyze_rivals_bounds(start, id, rivals.drop_last());
    }
}

/// Whether counting in the rivals other than `id` from `start` keeps both
/// counters within `i64`: before each rival counted, `analyzed` is below the
/// maximum, and so is `position` where the rival is ahead.
pub open spec fn analyze_fits(start: OrderAnalyze, id: i64, rivals: Seq<Order>) -> bool
    decreases rivals.len(),
{
    if rivals.len() == 0 {
        true
    } else {
        let before = analyze_rivals(start, id, rivals.drop_last());
        &&& analyze_fits(start, id, rivals.drop_last())
        &&& (rivals.last().order_id == id || (before.analyzed < i64::MAX && (ahead_of(
            before.price,
            rivals.last(),
        ) ==> before.position < i64::MAX)))
    }
}

/// Counting fits for every prefix of a list for which it fits.
proof fn lemma_analyze_fits_prefix(start: OrderAnalyze, id: i64, rivals: Seq<Order>, i: int)
    requires
        analyze_fits(start, id, rivals),
        0 <= i <= rivals.len(),
    ensures
        analyze_fits(start, id, rivals.take(i)),
    decreases rivals.len(),
{
    if i == rivals.len() {
        assert(rivals.take(i) =~= rivals);
    } else {
        assert(rivals.drop_last().take(i) =~= rivals.take(i));
        lemma_analyze_fits_prefix(start, id, rivals.drop_last(), i);
    }
}

/// What the assay of an order of the older kind reports.
#[derive(Clone, Copy, Debug)]
pub enum AnalyzeReport {
    /// The order moved: from which place to which, among how many offers
    /// (places count from 1).
    PositionChanged {
        previous_place: i128,
        place: i128,
        of: i128,
        price: Price,
        strongest_rival_price: Price,
        is_buy_order: bool,
    },
    /// A newly seen order that is not first.
    Placed { place: i128, of: i128, price: Price, is_buy_order: bool },
}

/// What the assay of `o` reports against the standing saved before.
pub open spec fn analyze_report_of(o: Order, previous: Option<OrderAnalyze>) -> Option<AnalyzeReport> {
    let now = o.assay_result;
    match previous {
        Some(prev) => {
            if prev.position == now.position && now.analyzed == prev.analyzed {
                None
            } else if prev.position == now.position && prev.analyzed != 0 && now.analyzed == 0 {
                None
            } else if prev.position != now.position {
                Some(
                    AnalyzeReport::PositionChanged {
                        previous_place: (prev.position + 1) as i128,
                        place: (now.position + 1) as i128,
                        of: (now.analyzed + 1) as i128,
                        price: o.price,
                        strongest_rival_price: now.strongest_rival_price,
                        is_buy_order: o.is_buy_order,
                    },
                )
            } else {
                None
            }
        },
        None => {
            if now.position != 0 {
                Some(
                    AnalyzeReport::Placed {
                        place: (now.position + 1) as i128,
                        of: (now.analyzed + 1) as i128,
                        price: o.price,
                        is_buy_order: o.is_buy_order,
                    },
                )
            } else {
                None
            }
        },
    }
}

/// The standing behind an optional reference.
pub open spec fn owned_analyze(previous: Option<&OrderAnalyze>) -> Option<OrderAnalyze> {
    match previous {
        Some(p) => Some(*p),
        None => None,
    }
}

/// The order that a market document describes: `price` is read first, then
/// `is_buy_order`, `order_id`, `region_id` (may be absent) and `type_id`; the
/// first field missing is the error. The standing starts fresh at the
/// order's price.
pub open spec fn analyzed_order_of_fields(
    price: Option<u64>,
    is_buy_order: Option<bool>,
    order_id: Option<i64>,
    region_id: Option<i64>,
    type_id: Option<i64>,
) -> Result<Order, OrderField> {
    if price is None {
        Err(OrderField::Price)
    } else if is_buy_order is None {
        Err(OrderField::IsBuyOrder)
    } else if order_id is None {
        Err(OrderField::OrderId)
    } else if type_id is None {
        Err(OrderField::TypeId)
    } else {
        Ok(
            Order {
                is_buy_order: is_buy_order->0,
                order_id: order_id->0,
                price: price_of_bits(price->0),
                region_id: region_id,
                type_id: type_id->0,
                assay_result: OrderAnalyze {
                    position: 0,
                    price: price_of_bits(price->0),
                    strongest_rival_price: zero_price(),
                    analyzed: 0,
                },
            },
        )
    }
}

/// The standing that a saved document describes, read in the order
/// `position`, `price`, `strongest_rival_price`, `analyzed`.
pub open spec fn analyze_of_fields(
    position: Option<i64>,
    price: Option<u64>,
    strongest_rival_price: Option<u64>,
    analyzed: Option<i64>,
) -> Result<OrderAnalyze, OrderField> {
    if position is None {
        Err(OrderField::Position)
    } else if price is None {
        Err(OrderField::Price)
    } else if strongest_rival_price is None {
        Err(OrderField::StrongestRivalPrice)
    } else if analyzed is None {
        Err(OrderField::Analyzed)
    } else {
        Ok(
            OrderAnalyze {
                position: position->0,
                price: price_of_bits(price->0),
                strongest_rival_price: price_of_bits(strongest_rival_price->0),
                analyzed: analyzed->0,
            },
        )
    }
}

/// The order that a market document describes (see
/// `analyzed_order_of_fields`), given the bit pattern of the `f64` its
/// `price` number reads as.
pub open spec fn analyzed_order_of_json(doc: JsonDoc, price_bits: Option<u64>) -> Result<Order, OrderField> {
    analyzed_order_of_fields(
        price_bits_of(field_of(doc, "price"@), price_bits),
        bool_of(field_of(doc, "is_buy_order"@)),
        i64_of(field_of(doc, "order_id"@)),
        i64_of(field_of(doc, "region_id"@)),
        i64_of(field_of(doc, "type_id"@)),
    )
}

/// The standing that a saved document describes (see `analyze_of_fields`),
/// given the bit patterns of the `f64`s its price numbers read as.
pub open spec fn analyze_of_json(
    doc: JsonDoc,
    price_bits: Option<u64>,
    strongest_rival_price_bits: Option<u64>,
) -> Result<OrderAnalyze, OrderField> {
    analyze_of_fields(
        i64_of(field_of(doc, "position"@)),
        price_bits_of(field_of(doc, "price"@), price_bits),
        price_bits_of(field_of(doc, "strongest_rival_price"@), strongest_rival_price_bits),
        i64_of(field_of(doc, "analyzed"@)),
    )
}

impl OrderAnalyze {
    /// A standing of an order with price `price` before any rival is seen.
    pub fn new(price: Price) -> (a: OrderAnalyze)
        ensures
            a == (OrderAnalyze { position: 0, price, strongest_rival_price: zero_price(), analyzed: 0 }),
    {
        OrderAnalyze {
            price: price,
            position: 0i64,
            strongest_rival_price: Price::new(0),
            analyzed: 0i64,
        }
    }

    /// Reads a saved standing from its document, or names the first field
    /// that is missing or of the wrong kind, given the bit patterns of the
    /// `f64`s that its `price` and `strongest_rival_price` numbers read as.
    pub fn read_json(
        doc: &JsonDoc,
        price_bits: Option<u64>,
        strongest_rival_price_bits: Option<u64>,
    ) -> (r: Result<OrderAnalyze, OrderField>)
        ensures
            r == analyze_of_json(*doc, price_bits, strongest_rival_price_bits),
    {
        let position = read_i64(doc.get("position"));
        let price = read_price_bits(doc.get("price"), price_bits);
        let best = read_price_bits(doc.get("strongest_rival_price"), strongest_rival_price_bits);
        let analyzed = read_i64(doc.get("analyzed"));
        OrderAnalyze::from_fields(position, price, best, analyzed)
    }

    /// The standing of a well-formed saved document (`read_json` tells
    /// whether it is one).
    pub fn from_json(
        doc: &JsonDoc,
        price_bits: Option<u64>,
        strongest_rival_price_bits: Option<u64>,
    ) -> (a: OrderAnalyze)
        requires
            analyze_of_json(*doc, price_bits, strongest_rival_price_bits) is Ok,
        ensures
            a == analyze_of_json(*doc, price_bits, strongest_rival_price_bits)->Ok_0,
    {
        OrderAnalyze::read_json(doc, price_bits, strongest_rival_price_bits).unwrap()
    }

    /// Reads a saved standing from the fields of its document.
    pub fn from_fields(
        position: Option<i64>,
        price: Option<u64>,
        strongest_rival_price: Option<u64>,
        analyzed: Option<i64>,
    ) -> (r: Result<OrderAnalyze, OrderField>)
        ensures
            r == analyze_of_fields(position, price, strongest_rival_price, analyzed),
    {
        let position = match position {
            Some(p) => p,
            None => { return Err(OrderField::Position); },
        };
        let price = match price {
            Some(bits) => Price::new(bits),
            None => { return Err(OrderField::Price); },
        };
        let strongest_rival_price = match strongest_rival_price {
            Some(bits) => Price::new(bits),
            None => { return Err(OrderField::StrongestRivalPrice); },
        };
        let analyzed = match analyzed {
            Some(a) => a,
            None => { return Err(OrderField::Analyzed); },
        };
        Ok(OrderAnalyze { position, price, strongest_rival_price, analyzed })
    }

    /// Counts one more rival in.
    pub fn take_into_account(&mut self, rival: &Order)
        requires
            old(self).analyzed < i64::MAX,
            ahead_of(old(self).price, *rival) ==> old(self).position < i64::MAX,
        ensures
            *final(self) == analyze_rival(*old(self), *rival),
    {
        let zero = Price::new(0);
        if rival.is_buy_order {
            self.strongest_rival_price = if self.strongest_rival_price > rival.price {
                self.strongest_rival_price
            } else {
                rival.price
            };
            if self.price < rival.price {
                self.position += 1;
            }
        } else {
            self.strongest_rival_price = if self.strongest_rival_price < rival.price
                && self.strongest_rival_price != zero {
                self.strongest_rival_price
            } else {
                rival.price
            };
            if self.price > rival.price {
                self.position += 1;
            }
        }
        self.analyzed += 1;
    }
}

impl Order {
    /// Reads an order of a market document, or names the first field that
    /// is missing or of the wrong kind. `price_bits` is the bit pattern of
    /// the `f64` that the `price` number reads as, where it is a number.
    pub fn read_json(doc: &JsonDoc, price_bits: Option<u64>) -> (r: Result<Order, OrderField>)
        ensures
            r == analyzed_order_of_json(*doc, price_bits),
    {
        Order::from_fields(
            read_price_bits(doc.get("price"), price_bits),
            read_bool(doc.get("is_buy_order")),
            read_i64(doc.get("order_id")),
            read_i64(doc.get("region_id")),
            read_i64(doc.get("type_id")),
        )
    }

    /// The order of a well-formed market document (`read_json` tells
    /// whether it is one).
    pub fn from_json(doc: &JsonDoc, price_bits: Option<u64>) -> (o: Order)
        requires
            analyzed_order_of_json(*doc, price_bits) is Ok,
        ensures
            o == analyzed_order_of_json(*doc, price_bits)->Ok_0,
    {
        Order::read_json(doc, price_bits).unwrap()
    }

    /// Builds an order from the fields of a market document.
    pub fn from_fields(
        price: Option<u64>,
        is_buy_order: Option<bool>,
        order_id: Option<i64>,
        region_id: Option<i64>,
        type_id: Option<i64>,
    ) -> (r: Result<Order, OrderField>)
        ensures
            r == analyzed_order_of_fields(price, is_buy_order, order_id, region_id, type_id),
    {
        let price = match price {
            Some(bits) => Price::new(bits),
            None => { return Err(OrderField::Price); },
        };
        let is_buy_order = match is_buy_order {
            Some(b) => b,
            None => { return Err(OrderField::IsBuyOrder); },
        };
        let order_id = match order_id {
            Some(id) => id,
            None => { return Err(OrderField::OrderId); },
        };
        let type_id = match type_id {
            Some(t) => t,
            None => { return Err(OrderField::TypeId); },
        };
        Ok(
            Order {
                is_buy_order,
                order_id,
                price,
                region_id,
                type_id,
                assay_result: OrderAnalyze::new(price),
            },
        )
    }

    /// Counts in every rival of the market but the order itself, on top of
    /// the standing the order has. Returns whether the order was met.
    pub fn assay(&mut self, rivals: &Vec<Order>) -> (found: bool)
        requires
            analyze_fits(old(self).assay_result, old(self).order_id, rivals@),
        ensures
            final(self).assay_result == analyze_rivals(old(self).assay_result, old(self).order_id, rivals@),
            final(self).is_buy_order == old(self).is_buy_order,
            final(self).order_id == old(self).order_id,
            final(self).price == old(self).price,
            final(self).region_id == old(self).region_id,
            final(self).type_id == old(self).type_id,
            found == (exists|i: int|
                0 <= i < rivals@.len() && #[trigger] rivals@[i].order_id == old(self).order_id),
    {
        let ghost orig = *self;
        let mut is_self_founded = false;
        let mut i: usize = 0;
        proof {
            assert(rivals@.take(0) =~= Seq::<Order>::empty());
        }
        while i < rivals.len()
            invariant
                i <= rivals@.len(),
                analyze_fits(orig.assay_result, orig.order_id, rivals@),
                self.is_buy_order == orig.is_buy_order,
                self.order_id == orig.order_id,
                self.price == orig.price,
                self.region_id == orig.region_id,
                self.type_id == orig.type_id,
                self.assay_result == analyze_rivals(orig.assay_result, orig.order_id, rivals@.take(i as int)),
                is_self_founded == (exists|j: int|
                    0 <= j < i && #[trigger] rivals@[j].order_id == orig.order_id),
            decreases rivals@.len() - i,
        {
            let rival = &rivals[i];
            proof {
                lemma_analyze_fits_prefix(orig.assay_result, orig.order_id, rivals@, i + 1);
                assert(rivals@.take(i + 1).drop_last() =~= rivals@.take(i as int));
                assert(rivals@.take(i + 1).last() == rivals@[i as int]);
            }
            if rival.order_id == self.order_id {
                is_self_founded = true;
            } else {
                self.assay_result.take_into_account(rival);
            }
            i += 1;
        }
        proof {
            assert(rivals@.take(i as int) =~= rivals@);
        }
        is_self_founded
    }

    /// What to tell the trader after an assay, given the standing saved
    /// after the previous one.
    pub fn render_assay_report(&self, previous: Option<&OrderAnalyze>) -> (r: Option<AnalyzeReport>)
        ensures
            r == analyze_report_of(*self, owned_analyze(previous)),
    {
        match previous {
            Some(prev) => {
                if prev.position == self.assay_result.position
                    && self.assay_result.analyzed == prev.analyzed {
                    return None;
                }
                if prev.position == self.assay_result.position && prev.analyzed != 0
                    && self.assay_result.analyzed == 0 {
                    return None;
                }
                if prev.position != self.assay_result.position {
                    return Some(
                        AnalyzeReport::PositionChanged {
                            previous_place: prev.position as i128 + 1,
                            place: self.assay_result.position as i128 + 1,
                            of: self.assay_result.analyzed as i128 + 1,
                            price: self.price,
                            strongest_rival_price: self.assay_result.strongest_rival_price,
                            is_buy_order: self.is_buy_order,
                        },
                    );
                }
                None
            },
            None => {
                if self.assay_result.position != 0 {
                    return Some(
                        AnalyzeReport::Placed {
                            place: self.assay_result.position as i128 + 1,
                            of: self.assay_result.analyzed as i128 + 1,
                            price: self.price,
                            is_buy_order: self.is_buy_order,
                        },
                    );
                }
                None
            },
        }
    }
}


/// The rivals other than `id` that are ahead of the price `price`.
pub open spec fn analyzed_ahead(price: Price, id: i64, rivals: Seq<Order>) -> Seq<Order> {
    rivals.filter(|r: Order| r.order_id != id && ahead_of(price, r))
}

/// Counting adds to a standing one for each rival other than the order
/// itself, and one place for each of them that is ahead.
pub proof fn lemma_analyze_counts(start: OrderAnalyze, id: i64, rivals: Seq<Order>)
    requires
        analyze_fits(start, id, rivals),
    ensures
        analyze_rivals(start, id, rivals).analyzed == start.analyzed + rivals.filter(
            |r: Order| r.order_id != id,
        ).len(),
        analyze_rivals(start, id, rivals).position == start.position + analyzed_ahead(start.price, id, rivals).len(),
        analyze_rivals(start, id, rivals).price == start.price,
    decreases rivals.len(),
{
    reveal(Seq::filter);
    if rivals.len() > 0 {
        lemma_analyze_counts(start, id, rivals.drop_last());
    }
}

/// A saved standing read from its fields is the standing they give.
pub proof fn lemma_analyze_fields_read_as_given(position: i64, price: u64, best: u64, analyzed: i64)
    ensures
        analyze_of_fields(Some(position), Some(price), Some(best), Some(analyzed)) == Ok::<
            OrderAnalyze,
            OrderField,
        >(
            OrderAnalyze {
                position,
                price: price_of_bits(price),
                strongest_rival_price: price_of_bits(best),
                analyzed,
            },
        ),
        analyze_of_fields(None, Some(price), Some(best), Some(analyzed)) == Err::<OrderAnalyze, OrderField>(
            OrderField::Position,
        ),
        analyze_of_fields(Some(position), None, Some(best), Some(analyzed)) == Err::<OrderAnalyze, OrderField>(
            OrderField::Price,
        ),
        analyze_of_fields(Some(position), Some(price), None, Some(analyzed)) == Err::<OrderAnalyze, OrderField>(
            OrderField::StrongestRivalPrice,
        ),
        analyze_of_fields(Some(position), Some(price), Some(best), None) == Err::<OrderAnalyze, OrderField>(
            OrderField::Analyzed,
        ),
{
}

/// An order read from its fields is the order they give, with a fresh
/// standing at its own price; the price is read first.
pub proof fn lemma_analyzed_order_fields_read_as_given(bits: u64, b: bool, id: i64, region: Option<i64>, t: i64)
    ensures
        analyzed_order_of_fields(Some(bits), Some(b), Some(id), region, Some(t)) == Ok::<Order, OrderField>(
            Order {
                is_buy_order: b,
                order_id: id,
                price: price_of_bits(bits),
                region_id: region,
                type_id: t,
                assay_result: OrderAnalyze {
                    position: 0,
                    price: price_of_bits(bits),
                    strongest_rival_price: zero_price(),
                    analyzed: 0,
                },
            },
        ),
        analyzed_order_of_fields(None, None, None, region, None) == Err::<Order, OrderField>(OrderField::Price),
        analyzed_order_of_fields(Some(bits), None, Some(id), region, Some(t)) == Err::<Order, OrderField>(
            OrderField::IsBuyOrder,
        ),
        analyzed_order_of_fields(Some(bits), Some(b), None, region, Some(t)) == Err::<Order, OrderField>(
            OrderField::OrderId,
        ),
        analyzed_order_of_fields(Some(bits), Some(b), Some(id), region, None) == Err::<Order, OrderField>(
            OrderField::TypeId,
        ),
{
}

/// What an assay of the older kind reports: a change of place with both
/// places and the number of offers counted from 1; nothing when the place
/// and count are as before or every rival went away; a new order that is
/// not first with its place; nothing for a new order that is first.
pub proof fn lemma_analyze_reports(o: Order, prev: OrderAnalyze)
    ensures
        prev.position != o.assay_result.position ==> analyze_report_of(o, Some(prev)) == Some(
            AnalyzeReport::PositionChanged {
                previous_place: (prev.position + 1) as i128,
                place: (o.assay_result.position + 1) as i128,
                of: (o.assay_result.analyzed + 1) as i128,
                price: o.price,
                strongest_rival_price: o.assay_result.strongest_rival_price,
                is_buy_order: o.is_buy_order,
            },
        ),
        prev.position == o.assay_result.position ==> analyze_report_of(o, Some(prev)) is None,
        o.assay_result.position != 0 ==> analyze_report_of(o, None) == Some(
            AnalyzeReport::Placed {
                place: (o.assay_result.position + 1) as i128,
                of: (o.assay_result.analyzed + 1) as i128,
                price: o.price,
                is_buy_order: o.is_buy_order,
            },
        ),
        o.assay_result.position == 0 ==> analyze_report_of(o, None) is None,
{
}


/// A buy rival is ahead exactly when its price is the higher number, a sell
/// rival exactly when its price is the lower number.
pub proof fn lemma_ahead_of(price: Price, rival: Order)
    ensures
        rival.is_buy_order ==> (ahead_of(price, rival) <==> is_number(price) && is_number(rival.price)
            && price@->0 < rival.price@->0),
        !rival.is_buy_order ==> (ahead_of(price, rival) <==> is_number(price) && is_number(rival.price)
            && rival.price@->0 < price@->0),
{
}

/// The strongest rival price is the highest buy price seen or the lowest
/// sell price seen, where a kept price of zero stands for none yet.
pub proof fn lemma_strongest_after(kept: Price, rival: Order)
    ensures
        rival.is_buy_order && is_number(kept) && is_number(rival.price) ==> strongest_after(kept, rival)@ == Some(
            if kept@->0 < rival.price@->0 {
                rival.price@->0
            } else {
                kept@->0
            },
        ),
        !rival.is_buy_order && is_number(kept) && is_number(rival.price) && kept@ != Some(0int)
            ==> strongest_after(kept, rival)@ == Some(
            if rival.price@->0 < kept@->0 {
                rival.price@->0
            } else {
                kept@->0
            },
        ),
        !rival.is_buy_order && kept@ == Some(0int) ==> strongest_after(kept, rival) == rival.price,
{
    crate::order::float_bits::lemma_values_follow_f64(0, 0);
}

} // verus!
