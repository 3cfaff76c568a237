//! The standing of an order kept beside its own price.
use vstd::prelude::*;
use super::price::{Price, PriceField, unset_price, price_of_field};
use super::overprint::Overprint;
use super::{Order, OrderField, account_rival, account_overflows, bits_given, price_field_of, read_price_field};
use crate::json_doc::{JsonDoc, field_of, i64_of, read_i64};

verus! {

/// How an order with price `price` stands against its rivals.
pub struct OrderAnalyze {
    pub position: i64,
    pub price: Price,
    pub strongest_rival_price: Price,
    pub analyzed: i64,
}

/// The standing that a saved document describes, read in the order
/// `position`, `price`, `strongest_rival_price`, `analyzed`; a price field
/// may be `null` (no price).
pub open spec fn analyze_of_fields(
    position: Option<i64>,
    price: PriceField,
    strongest_rival_price: PriceField,
    analyzed: Option<i64>,
) -> Result<OrderAnalyze, OrderField> {
    if position is None {
        Err(OrderField::Position)
    } else if price_of_field(price) is None {
        Err(OrderField::Price)
    } else if price_of_field(strongest_rival_price) is None {
        Err(OrderField::StrongestRivalPrice)
    } else if analyzed is None {
        Err(OrderField::Analyzed)
    } else {
        Ok(
            OrderAnalyze {
                position: position->0,
                price: price_of_field(price)->0,
                strongest_rival_price: price_of_field(strongest_rival_price)->0,
                analyzed: analyzed->0,
            },
        )
    }
}

/// The standing that a saved document describes (see `analyze_of_fields`),
/// given the bit patterns of the `f64`s its price numbers read as.
pub open spec fn analyze_of_json(
    doc: JsonDoc,
    price_bits: Option<u64>,
    strongest_rival_price_bits: Option<u64>,
) -> Result<OrderAnalyze, OrderField> {
    analyze_of_fields(
        i64_of(field_of(doc, "position"@)),
        price_field_of(field_of(doc, "price"@), price_bits),
        price_field_of(field_of(doc, "strongest_rival_price"@), strongest_rival_price_bits),
        i64_of(field_of(doc, "analyzed"@)),
    )
}

impl OrderAnalyze {
    /// Reads a saved standing from its document, or names the first field
    /// that is missing or of the wrong kind, given the bit patterns of the
    /// `f64`s that its `price` and `strongest_rival_price` numbers read as.
    pub fn read_json(
        doc: &JsonDoc,
        price_bits: Option<u64>,
        strongest_rival_price_bits: Option<u64>,
    ) -> (r: Result<OrderAnalyze, OrderField>)
        requires
            bits_given(field_of(*doc, "price"@), price_bits),
            bits_given(field_of(*doc, "strongest_rival_price"@), strongest_rival_price_bits),
        ensures
            r == analyze_of_json(*doc, price_bits, strongest_rival_price_bits),
    {
        let position = read_i64(doc.get("position"));
        let price = read_price_field(doc.get("price"), price_bits);
        let best = read_price_field(doc.get("strongest_rival_price"), strongest_rival_price_bits);
        let analyzed = read_i64(doc.get("analyzed"));
        OrderAnalyze::from_fields(position, price, best, analyzed)
    }

    /// The standing of a well-formed saved document (`read_json` tells
    /// whether it is one).
    pub fn from_json(
        doc: &JsonDoc,
        price_bits: Option<u64>,
        strongest_rival_price_bits: Option<u64>,
    ) -> (a: OrderAnalyze)
        requires
            bits_given(field_of(*doc, "price"@), price_bits),
            bits_given(field_of(*doc, "strongest_rival_price"@), strongest_rival_price_bits),
            analyze_of_json(*doc, price_bits, strongest_rival_price_bits) is Ok,
        ensures
            a == analyze_of_json(*doc, price_bits, strongest_rival_price_bits)->Ok_0,
    {
        OrderAnalyze::read_json(doc, price_bits, strongest_rival_price_bits).unwrap()
    }

    /// Reads a saved standing from the fields of its document.
    pub fn from_fields(
        position: Option<i64>,
        price: PriceField,
        strongest_rival_price: PriceField,
        analyzed: Option<i64>,
    ) -> (r: Result<OrderAnalyze, OrderField>)
        ensures
            r == analyze_of_fields(position, price, strongest_rival_price, analyzed),
    {
        let position = match position {
            Some(p) => p,
            None => { return Err(OrderField::Position); },
        };
        let price = match Price::read_field(price) {
            Some(p) => p,
            None => { return Err(OrderField::Price); },
        };
        let strongest_rival_price = match Price::read_field(strongest_rival_price) {
            Some(p) => p,
            None => { return Err(OrderField::StrongestRivalPrice); },
        };
        let analyzed = match analyzed {
            Some(a) => a,
            None => { return Err(OrderField::Analyzed); },
        };
        Ok(OrderAnalyze { position, price, strongest_rival_price, analyzed })
    }

    /// The standing read as an `Overprint`: the strongest rival price is the
    /// best price.
    pub open spec fn standing(&self) -> Overprint {
        Overprint {
            position: self.position,
            best_price: self.strongest_rival_price,
            analyzed: self.analyzed,
        }
    }

    /// A standing of an order with price `price` before any rival is seen.
    pub fn new(price: Price) -> (a: OrderAnalyze)
        ensures
            a.price == price,
            a.position == 0,
            a.strongest_rival_price == unset_price(),
            a.analyzed == 0,
    {
        OrderAnalyze {
            price: price,
            position: 0i64,
            strongest_rival_price: Price::default(),
            analyzed: 0i64,
        }
    }

    /// Counts one more rival in, by the same rule as `Order::take_into_account`.
    pub fn take_into_account(&mut self, rival: &Order)
        requires
            !account_overflows(old(self).standing(), old(self).price, *rival),
        ensures
            final(self).price == old(self).price,
            final(self).standing() == account_rival(old(self).standing(), old(self).price, *rival),
    {
        if rival.is_buy_order {
            self.strongest_rival_price = *Price::max(&self.strongest_rival_price, &rival.price);
            if self.price < rival.price {
                self.position += 1;
            }
        } else {
            self.strongest_rival_price = *Price::min(&self.strongest_rival_price, &rival.price);
            if self.price > rival.price {
                self.position += 1;
            }
        }
        self.analyzed += 1;
    }
}


/// A saved standing read from its fields is the standing they give, a
/// `null` price being the unset price; the first field missing, or a price
/// field that is neither a number nor `null`, is the error.
pub proof fn lemma_standing_fields_read_as_given(
    position: i64,
    price: PriceField,
    best: PriceField,
    analyzed: i64,
)
    ensures
        price !is Other && best !is Other ==> analyze_of_fields(Some(position), price, best, Some(analyzed))
            == Ok::<OrderAnalyze, OrderField>(
            OrderAnalyze {
                position,
                price: match price {
                    PriceField::Number(bits) => super::price::price_of_bits(bits),
                    _ => unset_price(),
                },
                strongest_rival_price: match best {
                    PriceField::Number(bits) => super::price::price_of_bits(bits),
                    _ => unset_price(),
                },
                analyzed,
            },
        ),
        analyze_of_fields(None, price, best, Some(analyzed)) == Err::<OrderAnalyze, OrderField>(
            OrderField::Position,
        ),
        price is Other ==> analyze_of_fields(Some(position), price, best, Some(analyzed)) == Err::<
            OrderAnalyze,
            OrderField,
        >(OrderField::Price),
        price !is Other && best is Other ==> analyze_of_fields(Some(position), price, best, Some(analyzed))
            == Err::<OrderAnalyze, OrderField>(OrderField::StrongestRivalPrice),
        price !is Other && best !is Other ==> analyze_of_fields(Some(position), price, best, None) == Err::<
            OrderAnalyze,
            OrderField,
        >(OrderField::Analyzed),
{
}

} // verus!
