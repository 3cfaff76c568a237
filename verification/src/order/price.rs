//! A price: the `f64` that a market order carries, held by its bit pattern.
//!
//! A NaN price means "no price yet": the minimum and maximum below pass over
//! it, and it never compares equal to anything.
use vstd::prelude::*;
use core::cmp::Ordering;
use vstd::std_specs::cmp::{PartialEqSpecImpl, PartialOrdSpecImpl};
use super::float_bits::{value_of_bits, bits_are_nan, bits_order_key, QUIET_NAN};

verus! {

/// A price, stored as the bit pattern of its `f64`.
#[derive(Clone, Copy, Debug)]
pub struct Price {
    bits: u64,
}

impl View for Price {
    /// `None` for a NaN; otherwise the position of the number on the real line
    /// (see `float_bits::order_key`).
    type V = Option<int>;

    open spec fn view(&self) -> Option<int> {
        value_of_bits(self.spec_bits())
    }
}

/// Whether a price holds a number (is not NaN).
pub open spec fn is_number(p: Price) -> bool {
    p@ is Some
}

/// Whether two prices are equal numbers (what `==` on prices tells).
pub open spec fn same_price(a: Price, b: Price) -> bool {
    is_number(a) && a@ == b@
}

/// The three-way comparison of two prices: `None` when either is NaN.
pub open spec fn price_order(lhs: Price, rhs: Price) -> Option<Ordering> {
    match (lhs@, rhs@) {
        (Some(a), Some(b)) => Some(
            if a < b {
                Ordering::Less
            } else if a == b {
                Ordering::Equal
            } else {
                Ordering::Greater
            },
        ),
        _ => None,
    }
}

/// The smaller of two prices, passing over a NaN; `lhs` on a tie.
pub open spec fn min_price(lhs: Price, rhs: Price) -> Price {
    if !is_number(lhs) {
        rhs
    } else if !is_number(rhs) {
        lhs
    } else if lhs@->0 <= rhs@->0 {
        lhs
    } else {
        rhs
    }
}

/// The larger of two prices, passing over a NaN; `lhs` on a tie.
pub open spec fn max_price(lhs: Price, rhs: Price) -> Price {
    if !is_number(lhs) {
        rhs
    } else if !is_number(rhs) {
        lhs
    } else if rhs@->0 <= lhs@->0 {
        lhs
    } else {
        rhs
    }
}

/// The price whose `f64` has the bit pattern `bits`.
pub closed spec fn price_of_bits(bits: u64) -> Price {
    Price { bits }
}

/// The unset price: `f64::NAN`.
pub open spec fn unset_price() -> Price {
    price_of_bits(QUIET_NAN)
}

/// A price is determined by its bit pattern.
pub broadcast proof fn lemma_price_of_bits(bits: u64)
    ensures
        #[trigger] price_of_bits(bits).spec_bits() == bits,
{
}

/// Two prices with the same bit pattern are the same price.
pub broadcast proof fn lemma_bits_determine_price(p: Price)
    ensures
        #[trigger] price_of_bits(p.spec_bits()) == p,
{
}

pub broadcast group group_price_bits {
    lemma_price_of_bits,
    lemma_bits_determine_price,
}

impl Price {
    /// The bit pattern of the price's `f64`.
    pub closed spec fn spec_bits(&self) -> u64 {
        self.bits
    }

    /// The price whose `f64` has the bit pattern `bits` (`f64::to_bits`).
    pub fn new(bits: u64) -> (p: Price)
        ensures
            p == price_of_bits(bits),
            p.spec_bits() == bits,
            p@ == value_of_bits(bits),
    {
        Price { bits }
    }

    /// The bit pattern of the price's `f64` (`f64::from_bits` gives it back).
    pub fn to_bits(&self) -> (bits: u64)
        ensures
            bits == self.spec_bits(),
    {
        self.bits
    }

    /// Whether the price is a NaN.
    pub fn is_nan(&self) -> (r: bool)
        ensures
            r == !is_number(*self),
    {
        bits_are_nan(self.bits)
    }

    fn take_cmp<'a>(o: Option<Ordering>, lhs: &'a Price, rhs: &'a Price) -> (r: &'a Price)
        ensures
            o matches Some(Ordering::Less) ==> r == lhs,
            o matches Some(Ordering::Equal) ==> r == lhs,
            o matches Some(Ordering::Greater) ==> r == rhs,
            o is None ==> (if is_number(*lhs) { r == lhs } else { r == rhs }),
    {
        match o {
            Some(result) => {
                match result {
                    Ordering::Less | Ordering::Equal => lhs,
                    Ordering::Greater => rhs,
                }
            },
            None => {
                if lhs == lhs {
                    lhs
                } else {
                    rhs
                }
            },
        }
    }

    /// The smaller of two prices; a NaN gives way to a number.
    pub fn min<'a>(lhs: &'a Price, rhs: &'a Price) -> (r: &'a Price)
        ensures
            *r == min_price(*lhs, *rhs),
    {
        Price::take_cmp(lhs.partial_cmp(rhs), lhs, rhs)
    }

    /// The larger of two prices; a NaN gives way to a number.
    pub fn max<'a>(lhs: &'a Price, rhs: &'a Price) -> (r: &'a Price)
        ensures
            *r == max_price(*lhs, *rhs),
    {
        Price::take_cmp(rhs.partial_cmp(lhs), lhs, rhs)
    }
}

/// A price field as a JSON document holds it.
#[derive(Clone, Copy, Debug)]
pub enum PriceField {
    /// `null`: no price.
    Null,
    /// A number, given by the bit pattern of its `f64`.
    Number(u64),
    /// Anything else (a string, an object, ...).
    Other,
}

/// The price a field gives: NaN for `null`, the number for a number, and
/// nothing for any other value.
pub open spec fn price_of_field(f: PriceField) -> Option<Price> {
    match f {
        PriceField::Null => Some(unset_price()),
        PriceField::Number(bits) => Some(price_of_bits(bits)),
        PriceField::Other => None,
    }
}

impl Price {
    /// Reads a price field of a JSON document: `null` is the unset price,
    /// a number is that price, anything else is refused.
    pub fn read_field(f: PriceField) -> (r: Option<Price>)
        ensures
            r == price_of_field(f),
    {
        match f {
            PriceField::Null => Some(Price::default()),
            PriceField::Number(bits) => Some(Price::new(bits)),
            PriceField::Other => None,
        }
    }

    /// The price of a field that is `null` or a number; any other value is
    /// no price (`Price::read_field` tells which).
    pub fn from_field(f: PriceField) -> (p: Price)
        requires
            price_of_field(f) is Some,
        ensures
            p == price_of_field(f)->0,
    {
        match f {
            PriceField::Number(bits) => Price::new(bits),
            _ => Price::default(),
        }
    }
}

impl Default for Price {
    /// The unset price, `f64::NAN`.
    fn default() -> (p: Price)
        ensures
            p == unset_price(),
            p.spec_bits() == QUIET_NAN,
            !is_number(p),
    {
        Price { bits: QUIET_NAN }
    }
}

impl PartialEq for Price {
    fn eq(&self, other: &Price) -> (r: bool) {
        if bits_are_nan(self.bits) || bits_are_nan(other.bits) {
            false
        } else {
            bits_order_key(self.bits) == bits_order_key(other.bits)
        }
    }
}

impl PartialEqSpecImpl for Price {
    open spec fn obeys_eq_spec() -> bool {
        true
    }

    /// Two numbers that stand at the same place; a NaN equals nothing.
    open spec fn eq_spec(&self, other: &Price) -> bool {
        same_price(*self, *other)
    }
}

impl PartialOrd for Price {
    fn partial_cmp(&self, other: &Price) -> (r: Option<Ordering>) {
        if bits_are_nan(self.bits) || bits_are_nan(other.bits) {
            None
        } else {
            let a = bits_order_key(self.bits);
            let b = bits_order_key(other.bits);
            if a < b {
                Some(Ordering::Less)
            } else if a == b {
                Some(Ordering::Equal)
            } else {
                Some(Ordering::Greater)
            }
        }
    }
}

impl PartialOrdSpecImpl for Price {
    open spec fn obeys_partial_cmp_spec() -> bool {
        true
    }

    open spec fn partial_cmp_spec(&self, other: &Price) -> Option<Ordering> {
        price_order(*self, *other)
    }
}

/// The minimum and the maximum of two prices are one of the two; they are
/// NaN only when both prices are; they do not depend on the order of the
/// two (as values); and between numbers they are the lower and the upper
/// bound.
pub proof fn lemma_min_max(a: Price, b: Price)
    ensures
        min_price(a, b) == a || min_price(a, b) == b,
        max_price(a, b) == a || max_price(a, b) == b,
        is_number(min_price(a, b)) == (is_number(a) || is_number(b)),
        is_number(max_price(a, b)) == (is_number(a) || is_number(b)),
        min_price(a, b)@ == min_price(b, a)@,
        max_price(a, b)@ == max_price(b, a)@,
        is_number(a) && is_number(b) ==> min_price(a, b)@->0 <= a@->0 && min_price(a, b)@->0
            <= b@->0,
        is_number(a) && is_number(b) ==> a@->0 <= max_price(a, b)@->0 && b@->0 <= max_price(
            a,
            b,
        )@->0,
        is_number(a) && !is_number(b) ==> min_price(a, b) == a && max_price(a, b) == a,
        !is_number(a) ==> min_price(a, b) == b && max_price(a, b) == b,
{
}

/// Equality of prices is that of numbers: symmetric, and a NaN equals
/// nothing, not even itself.
pub proof fn lemma_price_equality(a: Price, b: Price)
    ensures
        same_price(a, b) == same_price(b, a),
        !is_number(a) ==> !same_price(a, a),
        is_number(a) ==> same_price(a, a),
        same_price(a, b) <==> price_order(a, b) == Some(Ordering::Equal),
{
}

} // verus!
