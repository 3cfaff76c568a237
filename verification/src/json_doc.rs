//! JSON documents as the library reads them: the tree that the `json` crate
//! parses from a text, held as plain values, and the readers of its fields.
use vstd::prelude::*;
use vstd::string::StringExecFns;
use crate::decimal::{nat_decimal, int_decimal};

verus! {

/// A JSON value. An object keeps its entries in the order in which the
/// `json` crate iterates them.
#[derive(Debug)]
pub enum JsonDoc {
    Null,
    Bool(bool),
    /// `(-1 if !positive) * mantissa * 10^exponent`.
    Number { positive: bool, mantissa: u64, exponent: i16 },
    Text(String),
    Array(Vec<JsonDoc>),
    Object(Vec<(String, JsonDoc)>),
}

/// The shape of a field that should hold a price.
#[derive(Clone, Copy, Debug)]
pub enum NumberField {
    /// Missing or `null`.
    Null,
    /// A number, by its decimal parts.
    Number { positive: bool, mantissa: u64, exponent: i16 },
    /// Anything else.
    Other,
}

#[verifier::external_type_specification]
#[verifier::external_body]
pub struct ExJsonValue(json::JsonValue);

/// The document that `json::parse` reads from a text, variant for variant;
/// `None` when the text is not JSON.
pub uninterp spec fn json_document(text: Seq<char>) -> Option<JsonDoc>;

/// `json::parse`: the document a text holds, `None` when it holds none. The
/// contract names the result; what the parser accepts is the crate's.
#[verifier::external_body]
pub fn parse_json(text: &str) -> (r: Option<JsonDoc>)
    ensures
        r == json_document(text@),
{
    json::parse(text).ok().map(|v| doc_of_value(&v))
}

/// The value a `json::JsonValue` holds, one variant for one: both kinds of
/// string become `Text`, a number keeps the parts `Number::as_parts` gives,
/// an object keeps its entries in iteration order. Kept as a function of
/// its own only because the conversion recurses; `parse_json` applies it.
#[verifier::external_body]
fn doc_of_value(v: &json::JsonValue) -> JsonDoc {
    match v {
        json::JsonValue::Null => JsonDoc::Null,
        json::JsonValue::Boolean(b) => JsonDoc::Bool(*b),
        json::JsonValue::Number(n) => {
            let (positive, mantissa, exponent) = n.as_parts();
            JsonDoc::Number { positive, mantissa, exponent }
        },
        json::JsonValue::Short(s) => JsonDoc::Text(s.as_str().to_string()),
        json::JsonValue::String(s) => JsonDoc::Text(s.clone()),
        json::JsonValue::Array(a) => JsonDoc::Array(a.iter().map(doc_of_value).collect()),
        json::JsonValue::Object(o) => JsonDoc::Object(o.iter().map(|(k, x)| (k.to_string(), doc_of_value(x))).collect()),
    }
}

/// The text that `JsonValue::dump` writes for the value a document is
/// turned back into (`value_of_doc`).
pub uninterp spec fn json_text(d: JsonDoc) -> Seq<char>;

/// An integer as the `json` crate prints a number with exponent 0: a `-`
/// for a negative one, then the mantissa in decimal.
pub open spec fn integer_text(positive: bool, mantissa: u64) -> Seq<char> {
    (if positive {
        Seq::<char>::empty()
    } else {
        seq!['-']
    }) + nat_decimal(mantissa as nat)
}

/// `JsonValue::dump` of the value a document is turned back into. The
/// contract names the text; of a number with exponent 0 it states it, as the
/// crate's printer (`util::print_dec::write`) writes it: the sign, then the
/// digits of the mantissa.
#[verifier::external_body]
pub(crate) fn dump_json(d: &JsonDoc) -> (r: String)
    ensures
        r@ == json_text(*d),
        *d matches JsonDoc::Number { positive, mantissa, exponent } ==> (exponent == 0 ==> r@
            == integer_text(positive, mantissa)),
{
    value_of_doc(d).dump()
}

/// The `json::JsonValue` a document stands for, one variant for one: a
/// number by `Number::from_parts` of its parts, a text as a string, an
/// object by inserting its entries in order. Kept as a function of its own
/// only because the conversion recurses; `dump_json` applies it.
#[verifier::external_body]
fn value_of_doc(d: &JsonDoc) -> json::JsonValue {
    match d {
        JsonDoc::Null => json::JsonValue::Null,
        JsonDoc::Bool(b) => json::JsonValue::Boolean(*b),
        JsonDoc::Number { positive, mantissa, exponent } => json::JsonValue::Number(
            json::number::Number::from_parts(*positive, *mantissa, *exponent),
        ),
        JsonDoc::Text(s) => json::JsonValue::String(s.clone()),
        JsonDoc::Array(a) => json::JsonValue::Array(a.iter().map(value_of_doc).collect()),
        JsonDoc::Object(o) => json::JsonValue::Object(o.iter().map(|(k, x)| (k.as_str(), value_of_doc(x))).collect()),
    }
}

/// The value of the first entry with key `key`.
pub open spec fn lookup(entries: Seq<(String, JsonDoc)>, key: Seq<char>) -> Option<JsonDoc>
    decreases entries.len(),
{
    if entries.len() == 0 {
        None
    } else if entries[0].0@ == key {
        Some(entries[0].1)
    } else {
        lookup(entries.drop_first(), key)
    }
}

/// The field `key` of a document: `None` when it is not an object or has no
/// such key (the `json` crate reads `null` there).
pub open spec fn field_of(d: JsonDoc, key: Seq<char>) -> Option<JsonDoc> {
    match d {
        JsonDoc::Object(entries) => lookup(entries@, key),
        _ => None,
    }
}

/// `u64 as i64`, then negated with wrap-around for a negative number.
pub open spec fn signed_mantissa(positive: bool, mantissa: u64) -> i64 {
    let t = mantissa as i64;
    if positive || t == i64::MIN {
        t
    } else {
        (-t) as i64
    }
}

/// What `JsonValue::as_i64` reads: a number with exponent 0, its mantissa
/// taken as an `i64` (as `u64 as i64` does) and negated for a negative number.
pub open spec fn i64_of(d: Option<JsonDoc>) -> Option<i64> {
    match d {
        Some(JsonDoc::Number { positive, mantissa, exponent }) => if exponent == 0 {
            Some(signed_mantissa(positive, mantissa))
        } else {
            None
        },
        _ => None,
    }
}

/// What `JsonValue::as_u32` reads: a positive number with exponent 0 whose
/// mantissa fits a `u32`.
pub open spec fn u32_of(d: Option<JsonDoc>) -> Option<u32> {
    match d {
        Some(JsonDoc::Number { positive, mantissa, exponent }) => if positive && exponent == 0
            && mantissa <= u32::MAX {
            Some(mantissa as u32)
        } else {
            None
        },
        _ => None,
    }
}

/// What `JsonValue::as_bool` reads.
pub open spec fn bool_of(d: Option<JsonDoc>) -> Option<bool> {
    match d {
        Some(JsonDoc::Bool(b)) => Some(b),
        _ => None,
    }
}

/// The text that `JsonValue::to_string` gives of a field: a string as it
/// is, `null` (also for a missing field), `true` or `false`, an integer in
/// decimal, and anything else as `JsonValue::dump` writes it (which is what
/// `to_string` writes for a number, an array or an object).
pub open spec fn text_of(d: Option<JsonDoc>) -> Seq<char> {
    match d {
        None => "null"@,
        Some(JsonDoc::Null) => "null"@,
        Some(JsonDoc::Text(s)) => s@,
        Some(JsonDoc::Bool(b)) => if b {
            "true"@
        } else {
            "false"@
        },
        Some(JsonDoc::Number { positive, mantissa, exponent }) => if exponent == 0 {
            integer_text(positive, mantissa)
        } else {
            json_text(d->0)
        },
        Some(x) => json_text(x),
    }
}

/// The shape of a price field.
pub open spec fn number_field_of(d: Option<JsonDoc>) -> NumberField {
    match d {
        None => NumberField::Null,
        Some(JsonDoc::Null) => NumberField::Null,
        Some(JsonDoc::Number { positive, mantissa, exponent }) => NumberField::Number {
            positive,
            mantissa,
            exponent,
        },
        _ => NumberField::Other,
    }
}

/// What `JsonValue::len` gives: the number of items of an array or entries
/// of an object, 0 for anything else.
pub open spec fn len_of(d: JsonDoc) -> nat {
    match d {
        JsonDoc::Array(items) => items@.len(),
        JsonDoc::Object(entries) => entries@.len(),
        _ => 0,
    }
}

impl JsonDoc {
    /// The field `key` (see `field_of`).
    pub fn get(&self, key: &str) -> (r: Option<&JsonDoc>)
        ensures
            match field_of(*self, key@) {
                Some(v) => r matches Some(d) && *d == v,
                None => r is None,
            },
    {
        match self {
            JsonDoc::Object(entries) => {
                let key_s = String::from_str(key);
                let mut i: usize = 0;
                proof {
                    assert(entries@.skip(0) =~= entries@);
                }
                while i < entries.len()
                    invariant
                        i <= entries@.len(),
                        key_s@ == key@,
                        lookup(entries@, key@) == lookup(entries@.skip(i as int), key@),
                        field_of(*self, key@) == lookup(entries@, key@),
                    decreases entries@.len() - i,
                {
                    proof {
                        assert(entries@.skip(i as int).drop_first() =~= entries@.skip(i + 1));
                        assert(entries@.skip(i as int)[0] == entries@[i as int]);
                    }
                    if entries[i].0 == key_s {
                        return Some(&entries[i].1);
                    }
                    i += 1;
                }
                None
            },
            _ => None,
        }
    }

    /// The items of an array; `None` for anything else (`JsonValue::members`
    /// gives no items there).
    pub fn members(&self) -> (r: Option<&Vec<JsonDoc>>)
        ensures
            match *self {
                JsonDoc::Array(items) => r matches Some(v) && *v == items,
                _ => r is None,
            },
    {
        match self {
            JsonDoc::Array(items) => Some(items),
            _ => None,
        }
    }

    /// `JsonValue::len`.
    pub fn len(&self) -> (n: usize)
        ensures
            n == len_of(*self),
    {
        match self {
            JsonDoc::Array(items) => items.len(),
            JsonDoc::Object(entries) => entries.len(),
            _ => 0,
        }
    }
}

/// `JsonValue::as_i64` of a field (missing reads as `null`).
pub fn read_i64(d: Option<&JsonDoc>) -> (r: Option<i64>)
    ensures
        r == i64_of(owned_doc(d)),
{
    match d {
        Some(JsonDoc::Number { positive, mantissa, exponent }) => {
            if *exponent != 0 {
                None
            } else {
                let t = *mantissa as i64;
                if *positive || t == i64::MIN {
                    Some(t)
                } else {
                    Some(-t)
                }
            }
        },
        _ => None,
    }
}

/// `JsonValue::as_u32` of a field.
pub fn read_u32(d: Option<&JsonDoc>) -> (r: Option<u32>)
    ensures
        r == u32_of(owned_doc(d)),
{
    match d {
        Some(JsonDoc::Number { positive, mantissa, exponent }) => {
            if *positive && *exponent == 0 && *mantissa <= 0xFFFF_FFFFu64 {
                Some(*mantissa as u32)
            } else {
                None
            }
        },
        _ => None,
    }
}

/// `JsonValue::as_bool` of a field.
pub fn read_bool(d: Option<&JsonDoc>) -> (r: Option<bool>)
    ensures
        r == bool_of(owned_doc(d)),
{
    match d {
        Some(JsonDoc::Bool(b)) => Some(*b),
        _ => None,
    }
}

/// `JsonValue::to_string` of a field.
pub fn read_text(d: Option<&JsonDoc>) -> (r: String)
    ensures
        r@ == text_of(owned_doc(d)),
{
    proof {
        reveal_strlit("null");
        reveal_strlit("true");
        reveal_strlit("false");
    }
    match d {
        None => String::from_str("null"),
        Some(JsonDoc::Null) => String::from_str("null"),
        Some(JsonDoc::Text(s)) => s.clone(),
        Some(JsonDoc::Bool(b)) => if *b {
            String::from_str("true")
        } else {
            String::from_str("false")
        },
        Some(x) => dump_json(x),
    }
}

/// The shape of a price field.
pub fn read_number_field(d: Option<&JsonDoc>) -> (r: NumberField)
    ensures
        r == number_field_of(owned_doc(d)),
{
    match d {
        None => NumberField::Null,
        Some(JsonDoc::Null) => NumberField::Null,
        Some(JsonDoc::Number { positive, mantissa, exponent }) => NumberField::Number {
            positive: *positive,
            mantissa: *mantissa,
            exponent: *exponent,
        },
        _ => NumberField::Other,
    }
}

/// The document behind an optional reference.
pub open spec fn owned_doc(d: Option<&JsonDoc>) -> Option<JsonDoc> {
    match d {
        Some(x) => Some(*x),
        None => None,
    }
}

/// The JSON number for an integer, as the `json` crate makes it from an
/// `i64`: its sign, its magnitude and exponent 0.
pub open spec fn integer_doc(n: i64) -> JsonDoc {
    JsonDoc::Number {
        positive: n >= 0,
        mantissa: (if n >= 0 {
            n as int
        } else {
            -(n as int)
        }) as u64,
        exponent: 0,
    }
}

/// An integer written as a JSON number reads back as itself, as a `u32`
/// exactly when it is one, and as its decimal text; a number with another
/// exponent is no integer.
pub proof fn lemma_integers_read_back(n: i64, positive: bool, mantissa: u64, exponent: i16)
    ensures
        i64_of(Some(integer_doc(n))) == Some(n),
        0 <= n <= u32::MAX ==> u32_of(Some(integer_doc(n))) == Some(n as u32),
        n < 0 ==> u32_of(Some(integer_doc(n))) is None,
        text_of(Some(integer_doc(n))) == int_decimal(n as int),
        exponent != 0 ==> i64_of(Some(JsonDoc::Number { positive, mantissa, exponent })) is None,
        exponent != 0 ==> u32_of(Some(JsonDoc::Number { positive, mantissa, exponent })) is None,
{
    if n == i64::MIN {
        assert((0x8000_0000_0000_0000u64 as i64) == i64::MIN) by (bit_vector);
    }
    if n >= 0 {
        assert(Seq::<char>::empty() + nat_decimal(n as nat) =~= nat_decimal(n as nat));
    }
}

/// A boolean reads as itself and a string as its text; `null` and a
/// missing field read as the text `null` and as no boolean, integer or
/// `u32`; a boolean's text is `true` or `false`.
pub proof fn lemma_plain_values_read(b: bool, s: String, missing: Option<JsonDoc>)
    requires
        missing is None || missing == Some(JsonDoc::Null),
    ensures
        bool_of(Some(JsonDoc::Bool(b))) == Some(b),
        text_of(Some(JsonDoc::Text(s))) == s@,
        text_of(Some(JsonDoc::Bool(true))) == "true"@,
        text_of(Some(JsonDoc::Bool(false))) == "false"@,
        text_of(missing) == "null"@,
        bool_of(missing) is None,
        i64_of(missing) is None,
        u32_of(missing) is None,
        number_field_of(missing) == NumberField::Null,
        bool_of(Some(JsonDoc::Text(s))) is None,
        i64_of(Some(JsonDoc::Text(s))) is None,
        number_field_of(Some(JsonDoc::Text(s))) == NumberField::Other,
        number_field_of(Some(JsonDoc::Bool(b))) == NumberField::Other,
{
}

/// The field `key` of an object is the value of its first entry with that
/// key; an object with no such entry, or a value that is no object, has no
/// field `key`.
pub proof fn lemma_field_is_first_entry(entries: Vec<(String, JsonDoc)>, key: Seq<char>, i: int, other: JsonDoc)
    requires
        other !is Object,
    ensures
        0 <= i < entries@.len() && entries@[i].0@ == key && (forall|j: int| 0 <= j < i ==> #[trigger] entries@[j].0@ != key)
            ==> field_of(JsonDoc::Object(entries), key) == Some(entries@[i].1),
        (forall|j: int| 0 <= j < entries@.len() ==> #[trigger] entries@[j].0@ != key) ==> field_of(
            JsonDoc::Object(entries),
            key,
        ) is None,
        field_of(other, key) is None,
{
    if 0 <= i < entries@.len() && entries@[i].0@ == key && (forall|j: int| 0 <= j < i ==> #[trigger] entries@[j].0@ != key) {
        lemma_lookup_first(entries@, key, i);
    }
    if forall|j: int| 0 <= j < entries@.len() ==> #[trigger] entries@[j].0@ != key {
        lemma_lookup_none(entries@, key);
    }
}

proof fn lemma_lookup_first(entries: Seq<(String, JsonDoc)>, key: Seq<char>, i: int)
    requires
        0 <= i < entries.len(),
        entries[i].0@ == key,
        forall|j: int| 0 <= j < i ==> #[trigger] entries[j].0@ != key,
    ensures
        lookup(entries, key) == Some(entries[i].1),
    decreases i,
{
    if i > 0 {
        assert(entries[0].0@ != key);
        let rest = entries.drop_first();
        assert forall|j: int| 0 <= j < i - 1 implies #[trigger] rest[j].0@ != key by {
            assert(rest[j] == entries[j + 1]);
        }
        lemma_lookup_first(rest, key, i - 1);
    }
}

proof fn lemma_lookup_none(entries: Seq<(String, JsonDoc)>, key: Seq<char>)
    requires
        forall|j: int| 0 <= j < entries.len() ==> #[trigger] entries[j].0@ != key,
    ensures
        lookup(entries, key) is None,
    decreases entries.len(),
{
    if entries.len() > 0 {
        assert(entries[0].0@ != key);
        let rest = entries.drop_first();
        assert forall|j: int| 0 <= j < rest.len() implies #[trigger] rest[j].0@ != key by {
            assert(rest[j] == entries[j + 1]);
        }
        lemma_lookup_none(rest, key);
    }
}

/// An array holds as many values as its items, an object as its entries,
/// and anything else none.
pub proof fn lemma_len_counts(items: Vec<JsonDoc>, entries: Vec<(String, JsonDoc)>, other: JsonDoc)
    requires
        other !is Array && other !is Object,
    ensures
        len_of(JsonDoc::Array(items)) == items@.len(),
        len_of(JsonDoc::Object(entries)) == entries@.len(),
        len_of(other) == 0,
{
}

} // verus!
