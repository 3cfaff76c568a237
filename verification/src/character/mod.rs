//! A trader's character: where its orders are kept, where it is told about
//! them, and what an analysis of its orders has to tell.
pub mod token_holder;

use vstd::prelude::*;
use std::collections::HashMap;
use vstd::string::{StringExecFns, StrSliceExecFns};
use token_holder::TokenHolder;
use crate::text::{starts_with, ends_with, lemma_joined};
use crate::decimal::{int_decimal, nat_decimal, digit_char, push_i64, i64_to_decimal};
use crate::order::{Order, AssayReport, assay_of, assayed, report_of};
use crate::json_doc::{
    JsonDoc, json_text, dump_json, integer_doc, field_of, text_of, i64_of, lemma_field_is_first_entry,
    lemma_integers_read_back,
};

verus! {

broadcast use vstd::std_specs::hash::group_hash_axioms;

/// A character: who trades, where to tell them, and their tokens.
pub struct Character {
    pub name: String,
    /// The Telegram chat to report to, as text.
    pub tg: String,
    pub token: TokenHolder,
    pub id: i64,
}

/// A message for a Telegram chat.
pub struct TelegramMessage {
    pub chat_id: i64,
    pub text: String,
}

/// The text a document holds, if it holds one.
pub open spec fn text_value(d: JsonDoc) -> Option<Seq<char>> {
    match d {
        JsonDoc::Text(t) => Some(t@),
        _ => None,
    }
}

/// Whether a document is the body of a request that sends `text` to the
/// chat `chat_id`: an object with the entries `text`, `chat_id` and
/// `parse_mode` (`Markdown`), in that order.
pub open spec fn is_message_body(d: JsonDoc, text: Seq<char>, chat_id: i64) -> bool {
    &&& d matches JsonDoc::Object(entries)
    &&& entries@.len() == 3
    &&& entries@[0].0@ == "text"@
    &&& text_value(entries@[0].1) == Some(text)
    &&& entries@[1].0@ == "chat_id"@
    &&& entries@[1].1 == integer_doc(chat_id)
    &&& entries@[2].0@ == "parse_mode"@
    &&& text_value(entries@[2].1) == Some("Markdown"@)
}

/// A message body holds the message's text under `text`, its chat under
/// `chat_id` and `Markdown` under `parse_mode`, as the readers of a JSON
/// document read them.
pub proof fn lemma_message_body_fields(d: JsonDoc, text: Seq<char>, chat_id: i64)
    requires
        is_message_body(d, text, chat_id),
    ensures
        text_of(field_of(d, "text"@)) == text,
        i64_of(field_of(d, "chat_id"@)) == Some(chat_id),
        text_of(field_of(d, "parse_mode"@)) == "Markdown"@,
{
    reveal_strlit("text");
    reveal_strlit("chat_id");
    reveal_strlit("parse_mode");
    let entries = d->Object_0;
    assert("text"@.len() == 4);
    assert("chat_id"@.len() == 7);
    assert("parse_mode"@.len() == 10);
    assert("text"@ != "chat_id"@);
    assert("text"@ != "parse_mode"@);
    assert("chat_id"@ != "parse_mode"@);
    lemma_field_is_first_entry(entries, "text"@, 0, JsonDoc::Null);
    lemma_field_is_first_entry(entries, "chat_id"@, 1, JsonDoc::Null);
    lemma_field_is_first_entry(entries, "parse_mode"@, 2, JsonDoc::Null);
    lemma_integers_read_back(chat_id, true, 0, 0);
}

impl TelegramMessage {
    /// The body of the request that sends the message: the JSON text of its
    /// text and chat, to be read as Markdown.
    pub fn body(&self) -> (r: String)
        ensures
            exists|d: JsonDoc| #[trigger] is_message_body(d, self.text@, self.chat_id) && r@ == json_text(d),
    {
        let mut entries: Vec<(String, JsonDoc)> = Vec::new();
        entries.push((String::from_str("text"), JsonDoc::Text(self.text.clone())));
        let magnitude: u64 = if self.chat_id >= 0 {
            self.chat_id as u64
        } else {
            (-(self.chat_id as i128)) as u64
        };
        entries.push(
            (String::from_str("chat_id"), JsonDoc::Number { positive: self.chat_id >= 0, mantissa: magnitude, exponent: 0 }),
        );
        entries.push((String::from_str("parse_mode"), JsonDoc::Text(String::from_str("Markdown"))));
        let doc = JsonDoc::Object(entries);
        let r = dump_json(&doc);
        assert(is_message_body(doc, self.text@, self.chat_id));
        r
    }
}

/// Whether a character is an ASCII digit.
pub open spec fn is_digit(c: char) -> bool {
    '0' <= c <= '9'
}

/// The number that a string of ASCII digits writes in decimal.
pub open spec fn digits_value(digits: Seq<char>) -> int
    decreases digits.len(),
{
    if digits.len() == 0 {
        0
    } else {
        digits_value(digits.drop_last()) * 10 + (digits.last() as int - '0' as int)
    }
}

/// Whether a text starts with a sign.
pub open spec fn signed_text(s: Seq<char>) -> bool {
    s.len() > 0 && (s[0] == '-' || s[0] == '+')
}

/// The text after its sign, if it has one.
pub open spec fn unsigned_part(s: Seq<char>) -> Seq<char> {
    if signed_text(s) {
        s.skip(1)
    } else {
        s
    }
}

/// Whether every character of a text is an ASCII digit.
pub open spec fn all_digits(digits: Seq<char>) -> bool {
    forall|i: int| 0 <= i < digits.len() ==> is_digit(#[trigger] digits[i])
}

/// What `str::parse::<i64>` reads from a text: an optional `+` or `-`, then
/// one or more ASCII digits and nothing else, whose value fits an `i64`.
pub open spec fn parsed_i64(s: Seq<char>) -> Option<i64> {
    let digits = unsigned_part(s);
    let magnitude = digits_value(digits);
    let value = if signed_text(s) && s[0] == '-' {
        -magnitude
    } else {
        magnitude
    };
    if digits.len() > 0 && all_digits(digits) && i64::MIN <= value <= i64::MAX {
        Some(value as i64)
    } else {
        None
    }
}

/// A string of ASCII digits writes at least what any of its prefixes writes.
proof fn lemma_digits_value_prefix(digits: Seq<char>, j: int)
    requires
        0 <= j <= digits.len(),
        forall|k: int| 0 <= k < digits.len() ==> is_digit(#[trigger] digits[k]),
    ensures
        0 <= digits_value(digits.take(j)) <= digits_value(digits),
    decreases digits.len(),
{
    if j == digits.len() {
        assert(digits.take(j) =~= digits);
        if digits.len() > 0 {
            lemma_digits_value_prefix(digits.drop_last(), j - 1);
            assert(digits.drop_last().take(j - 1) =~= digits.drop_last());
            assert(is_digit(digits[digits.len() - 1]));
        }
    } else {
        assert(digits.drop_last().take(j) =~= digits.take(j));
        assert(forall|k: int| 0 <= k < digits.drop_last().len() ==> #[trigger] digits.drop_last()[k] == digits[k]);
        lemma_digits_value_prefix(digits.drop_last(), j);
        assert(is_digit(digits[digits.len() - 1]));
    }
}

/// Reads an `i64` as `str::parse::<i64>` does: an optional `+` or `-`, then
/// one or more ASCII digits and nothing else, whose value fits an `i64`.
pub fn parse_i64(s: &str) -> (r: Option<i64>)
    ensures
        r == parsed_i64(s@),
{
    let n = s.unicode_len();
    if n == 0 {
        return None;
    }
    let first = s.get_char(0);
    let negative = first == '-';
    let start: usize = if first == '-' || first == '+' {
        1
    } else {
        0
    };
    if start == n {
        return None;
    }
    let ghost digits = s@.skip(start as int);
    proof {
        assert(s@[0] == first);
        if start == 0 {
            assert(s@.skip(0) =~= s@);
        }
    }
    let mut magnitude: u128 = 0;
    let mut i: usize = start;
    while i < n
        invariant
            start <= i <= n,
            n == s@.len(),
            digits == s@.skip(start as int),
            digits == unsigned_part(s@),
            (start == 1) == signed_text(s@),
            negative == (start == 1 && s@[0] == '-'),
            start <= 1,
            magnitude == digits_value(digits.take(i - start)),
            magnitude <= 0x8000_0000_0000_0000u128,
            forall|k: int| 0 <= k < i - start ==> is_digit(#[trigger] digits[k]),
        decreases n - i,
    {
        let c = s.get_char(i);
        proof {
            assert(digits[i - start] == c);
            assert(digits.take(i - start + 1).drop_last() =~= digits.take(i - start));
            assert(digits.take(i - start + 1).last() == c);
        }
        if c < '0' || c > '9' {
            proof {
                assert(!is_digit(digits[i - start]));
                assert(!all_digits(digits));
            }
            return None;
        }
        let d = (c as u32) - ('0' as u32);
        magnitude = magnitude * 10 + (d as u128);
        i += 1;
        if magnitude > 0x8000_0000_0000_0000u128 {
            proof {
                if all_digits(digits) {
                    lemma_digits_value_prefix(digits, i - start);
                }
            }
            return None;
        }
    }
    proof {
        assert(digits.take(i - start) =~= digits);
        if start == 1 {
            assert(s@.skip(1) =~= digits);
        } else {
            assert(s@.skip(0) =~= s@);
            assert(digits =~= s@);
        }
    }
    if negative {
        if magnitude == 0x8000_0000_0000_0000u128 {
            Some(i64::MIN)
        } else {
            Some(-(magnitude as i64))
        }
    } else if magnitude > 0x7FFF_FFFF_FFFF_FFFFu128 {
        None
    } else {
        Some(magnitude as i64)
    }
}

/// The ids of a list of orders.
pub open spec fn ids_of(orders: Seq<Order>) -> Set<i64> {
    Set::new(|id: i64| exists|i: int| 0 <= i < orders.len() && #[trigger] orders[i].order_id == id)
}

/// The saved orders not yet taken by the first `i` orders.
pub open spec fn previous_left(orders: Seq<Order>, previous: Map<i64, Order>, i: int) -> Map<i64, Order> {
    previous.remove_keys(ids_of(orders.take(i)))
}

/// The saved order that the `i`-th order is compared with: the one saved
/// under its id, unless an earlier order of the list took it.
pub open spec fn previous_for(orders: Seq<Order>, previous: Map<i64, Order>, i: int) -> Option<Order> {
    let left = previous_left(orders, previous, i);
    if left.contains_key(orders[i].order_id) {
        Some(left[orders[i].order_id])
    } else {
        None
    }
}

/// What an analysis of a character's orders found.
pub struct Analysis {
    /// For each order, what to report of it.
    pub reports: Vec<Option<AssayReport>>,
    /// For each order, whether it was met among its market's orders.
    pub found: Vec<bool>,
    /// The saved orders that no current order took: orders that are gone.
    pub discharged: HashMap<i64, Order>,
}

/// Whether an analysis has anything to tell.
pub open spec fn has_news(reports: Seq<Option<AssayReport>>, discharged: Map<i64, Order>) -> bool {
    (exists|i: int| 0 <= i < reports.len() && #[trigger] reports[i] is Some) || discharged.len() > 0
}

/// A saved order that disappeared is always news, and so is any order
/// report; an analysis with neither has nothing to tell.
pub proof fn lemma_news_of_discharge(
    reports: Seq<Option<AssayReport>>,
    discharged: Map<i64, Order>,
    gone: i64,
    i: int,
)
    requires
        discharged.dom().finite(),
    ensures
        discharged.dom().contains(gone) ==> has_news(reports, discharged),
        0 <= i < reports.len() && reports[i] is Some ==> has_news(reports, discharged),
        (forall|j: int| 0 <= j < reports.len() ==> reports[j] is None) && discharged.dom() =~= Set::empty()
            ==> !has_news(reports, discharged),
{
    if discharged.dom().contains(gone) {
        vstd::set::axiom_set_remove_len(discharged.dom(), gone);
    }
    if discharged.dom() =~= Set::empty() {
        broadcast use vstd::set::axiom_set_empty_len;
        assert(discharged.dom().len() == 0);
    }
}

impl Analysis {
    /// Whether there is a report to send: some order has a report, or some
    /// saved order is gone.
    pub fn has_report(&self) -> (r: bool)
        ensures
            r == has_news(self.reports@, self.discharged@),
    {
        let mut i: usize = 0;
        while i < self.reports.len()
            invariant
                i <= self.reports@.len(),
                forall|j: int| 0 <= j < i ==> !(#[trigger] self.reports@[j] is Some),
            decreases self.reports@.len() - i,
        {
            if self.reports[i].is_some() {
                return true;
            }
            i += 1;
        }
        self.discharged.len() != 0
    }
}

impl Character {
    /// The name of the collection that keeps the character's orders: its id
    /// in decimal.
    pub fn mongo_collection_name(&self) -> (name: String)
        ensures
            name@ == collection_name_of(self.id as int),
    {
        i64_to_decimal(self.id)
    }

    /// The path of the market API that lists the character's orders.
    pub fn orders_path(&self) -> (path: String)
        ensures
            path@ == orders_path_of(self.id as int),
    {
        let mut path = String::from_str("/v1/characters/");
        push_i64(&mut path, self.id);
        path.append("/orders/");
        path
    }

    /// The message that tells the character `message`, addressed to the chat
    /// that `tg` names, which has to be a chat id (`parse_i64` tells).
    pub fn say(&self, message: &String) -> (m: TelegramMessage)
        requires
            parsed_i64(self.tg@) is Some,
        ensures
            m.chat_id == parsed_i64(self.tg@)->0,
            m.text@ == message@,
    {
        let chat_id = parse_i64(self.tg.as_str()).unwrap();
        TelegramMessage { chat_id, text: message.clone() }
    }

    /// Analyses the character's orders: assays each order against the
    /// market orders in `rivals` (same index), compares it with the order
    /// saved under its id after the previous analysis, and tells which saved
    /// orders are gone. The orders are left with their new standings.
    pub fn perfom_analysis(
        orders: &mut Vec<Order>,
        rivals: &Vec<Vec<Order>>,
        previous: HashMap<i64, Order>,
    ) -> (a: Analysis)
        requires
            rivals@.len() == old(orders)@.len(),
            forall|i: int| 0 <= i < rivals@.len() ==> (#[trigger] rivals@[i])@.len() < i64::MAX,
            forall|i: int|
                0 <= i < old(orders)@.len() ==> (#[trigger] previous_for(old(orders)@, previous@, i)
                    matches Some(p) ==> p.assay_result is Some),
        ensures
            final(orders)@.len() == old(orders)@.len(),
            forall|i: int|
                0 <= i < old(orders)@.len() ==> #[trigger] final(orders)@[i] == assayed(
                    old(orders)@[i],
                    rivals@[i]@,
                ),
            a.reports@.len() == old(orders)@.len(),
            forall|i: int|
                0 <= i < old(orders)@.len() ==> #[trigger] a.reports@[i] == report_of(
                    final(orders)@[i],
                    previous_for(old(orders)@, previous@, i),
                ),
            a.found@.len() == old(orders)@.len(),
            forall|i: int|
                0 <= i < old(orders)@.len() ==> (#[trigger] a.found@[i] <==> exists|j: int|
                    0 <= j < rivals@[i]@.len() && #[trigger] rivals@[i]@[j].order_id
                        == old(orders)@[i].order_id),
            a.discharged@ == previous@.remove_keys(ids_of(old(orders)@)),
    {
        let ghost start = orders@;
        let ghost saved = previous@;
        let mut previous = previous;
        let mut reports: Vec<Option<AssayReport>> = Vec::new();
        let mut found: Vec<bool> = Vec::new();
        let mut i: usize = 0;
        proof {
            assert(ids_of(start.take(0)) =~= Set::<i64>::empty());
            assert(previous@ =~= previous_left(start, saved, 0));
        }
        while i < orders.len()
            invariant
                i <= orders@.len(),
                orders@.len() == start.len(),
                rivals@.len() == start.len(),
                forall|k: int| 0 <= k < rivals@.len() ==> (#[trigger] rivals@[k])@.len() < i64::MAX,
                forall|k: int|
                    0 <= k < start.len() ==> (#[trigger] previous_for(start, saved, k) matches Some(p)
                        ==> p.assay_result is Some),
                forall|k: int| 0 <= k < i ==> #[trigger] orders@[k] == assayed(start[k], rivals@[k]@),
                forall|k: int| i <= k < start.len() ==> #[trigger] orders@[k] == start[k],
                previous@ == previous_left(start, saved, i as int),
                reports@.len() == i,
                forall|k: int|
                    0 <= k < i ==> #[trigger] reports@[k] == report_of(
                        orders@[k],
                        previous_for(start, saved, k),
                    ),
                found@.len() == i,
                forall|k: int|
                    0 <= k < i ==> (#[trigger] found@[k] <==> exists|j: int|
                        0 <= j < rivals@[k]@.len() && #[trigger] rivals@[k]@[j].order_id
                            == start[k].order_id),
            decreases start.len() - i,
        {
            let mut order = orders[i];
            let was_found = order.assay(&rivals[i]);
            let id = order.order_id;
            let ghost left = previous@;
            let prev = previous.remove(&id);
            proof {
                assert(id == start[i as int].order_id);
                assert(previous_for(start, saved, i as int) == prev);
                assert(order == assayed(start[i as int], rivals@[i as int]@));
                let before = ids_of(start.take(i as int));
                let after = ids_of(start.take(i + 1));
                assert forall|x: i64| after.contains(x) <==> before.insert(id).contains(x) by {
                    if after.contains(x) {
                        let j = choose|j: int| 0 <= j < i + 1 && #[trigger] start.take(i + 1)[j].order_id == x;
                        if j < i {
                            assert(start.take(i as int)[j] == start.take(i + 1)[j]);
                        }
                    }
                    if before.contains(x) {
                        let j = choose|j: int| 0 <= j < i && #[trigger] start.take(i as int)[j].order_id == x;
                        assert(start.take(i + 1)[j] == start.take(i as int)[j]);
                    }
                    if x == id {
                        assert(start.take(i + 1)[i as int].order_id == x);
                    }
                }
                assert(after =~= before.insert(id));
                assert(previous_left(start, saved, i + 1) =~= previous_left(start, saved, i as int).remove(id));
            }
            let report = match &prev {
                Some(p) => order.render_assay_report(Some(p)),
                None => order.render_assay_report(None),
            };
            orders.set(i, order);
            reports.push(report);
            found.push(was_found);
            i += 1;
        }
        proof {
            assert(start.take(start.len() as int) =~= start);
        }
        Analysis { reports, found, discharged: previous }
    }
}

/// Every saved order is accounted for once: the first current order with
/// its id is compared with it, a later order with the same id finds nothing,
/// and a saved order whose id no current order has is discharged.
pub proof fn lemma_saved_orders_accounted(orders: Seq<Order>, previous: Map<i64, Order>)
    ensures
        forall|id: i64|
            #[trigger] previous.remove_keys(ids_of(orders)).contains_key(id) <==> (
            previous.contains_key(id) && !ids_of(orders).contains(id)),
        forall|i: int|
            0 <= i < orders.len() ==> #[trigger] previous_for(orders, previous, i) == (if previous.contains_key(
                orders[i].order_id,
            ) && forall|j: int| 0 <= j < i ==> orders[j].order_id != orders[i].order_id {
                Some(previous[orders[i].order_id])
            } else {
                None::<Order>
            }),
{
    assert forall|i: int| 0 <= i < orders.len() implies #[trigger] previous_for(orders, previous, i)
        == (if previous.contains_key(orders[i].order_id) && forall|j: int|
        0 <= j < i ==> orders[j].order_id != orders[i].order_id {
        Some(previous[orders[i].order_id])
    } else {
        None::<Order>
    }) by {
        let id = orders[i].order_id;
        let taken = ids_of(orders.take(i));
        if forall|j: int| 0 <= j < i ==> orders[j].order_id != id {
            if taken.contains(id) {
                let j = choose|j: int| 0 <= j < i && #[trigger] orders.take(i)[j].order_id == id;
                assert(orders.take(i)[j] == orders[j]);
            }
        } else {
            let j = choose|j: int| 0 <= j < i && orders[j].order_id == id;
            assert(orders.take(i)[j] == orders[j]);
            assert(taken.contains(id));
        }
    }
}

/// The digits of a natural number in decimal: at least one, all ASCII
/// digits, and they read back as the number.
proof fn lemma_nat_decimal_digits(n: nat)
    ensures
        nat_decimal(n).len() > 0,
        forall|i: int| 0 <= i < nat_decimal(n).len() ==> is_digit(#[trigger] nat_decimal(n)[i]),
        digits_value(nat_decimal(n)) == n,
    decreases n,
{
    let d = (n % 10) as int;
    assert(digit_char(d) as int == d + 48);
    assert('0' as int == 48);
    if n < 10 {
        assert(digits_value(nat_decimal(n).drop_last()) == 0);
    }
    if n >= 10 {
        lemma_nat_decimal_digits(n / 10);
        let init = nat_decimal(n / 10);
        assert(nat_decimal(n).drop_last() =~= init);
        assert(nat_decimal(n).last() == digit_char(d));
        assert('0' as int == 48);
        assert(digits_value(nat_decimal(n)) == digits_value(init) * 10 + d);
        assert forall|i: int| 0 <= i < nat_decimal(n).len() implies is_digit(
            #[trigger] nat_decimal(n)[i],
        ) by {
            if i < init.len() {
                assert(nat_decimal(n)[i] == init[i]);
            }
        }
    }
}

/// An id written in decimal reads back as the same id.
pub proof fn lemma_decimal_reads_back(n: i64)
    ensures
        parsed_i64(int_decimal(n as int)) == Some(n),
{
    if n < 0 {
        let m = (-n) as nat;
        lemma_nat_decimal_digits(m);
        assert((seq!['-'] + nat_decimal(m)).skip(1) =~= nat_decimal(m));
    } else {
        lemma_nat_decimal_digits(n as nat);
        assert(is_digit(nat_decimal(n as nat)[0]));
    }
}


/// The name of the collection that keeps a character's orders.
pub open spec fn collection_name_of(id: int) -> Seq<char> {
    int_decimal(id)
}

/// The path of the market API that lists a character's orders.
pub open spec fn orders_path_of(id: int) -> Seq<char> {
    "/v1/characters/"@ + int_decimal(id) + "/orders/"@
}

/// A character's collection name reads back as its id, and characters with
/// different ids have different collections and different order paths, each
/// under `/v1/characters/` and ending with `/orders/`.
pub proof fn lemma_character_names(id: i64, other: i64)
    ensures
        parsed_i64(collection_name_of(id as int)) == Some(id),
        id != other ==> collection_name_of(id as int) != collection_name_of(other as int),
        starts_with(orders_path_of(id as int), "/v1/characters/"@),
        ends_with(orders_path_of(id as int), "/orders/"@),
        id != other ==> orders_path_of(id as int) != orders_path_of(other as int),
{
    lemma_decimal_reads_back(id);
    lemma_decimal_reads_back(other);
    let head = "/v1/characters/"@;
    let tail = "/orders/"@;
    let a = orders_path_of(id as int);
    let b = orders_path_of(other as int);
    assert(a =~= head + (int_decimal(id as int) + tail));
    lemma_joined(head, int_decimal(id as int) + tail);
    assert(a =~= (head + int_decimal(id as int)) + tail);
    lemma_joined(head + int_decimal(id as int), tail);
    if a == b {
        reveal_strlit("/orders/");
        assert(tail.len() == 8);
        assert(a.subrange(head.len() as int, a.len() - 8) =~= int_decimal(id as int));
        assert(b.subrange(head.len() as int, b.len() - 8) =~= int_decimal(other as int));
    }
}


/// A text reads as no `i64` when it is empty, is a sign alone, or holds a
/// character after its sign that is no digit; a `+` before digits changes
/// nothing and a `-` negates.
pub proof fn lemma_parse_rejects(s: Seq<char>, i: int)
    ensures
        parsed_i64(Seq::empty()) is None,
        parsed_i64(seq!['-']) is None,
        parsed_i64(seq!['+']) is None,
        0 <= i < s.len() && !is_digit(s[i]) && !(i == 0 && (s[0] == '-' || s[0] == '+')) ==> parsed_i64(s) is None,
        s.len() > 0 && is_digit(s[0]) ==> parsed_i64(seq!['+'] + s) == parsed_i64(s),
        s.len() > 0 && is_digit(s[0]) && parsed_i64(s) is Some ==> parsed_i64(seq!['-'] + s) == Some(
            (-parsed_i64(s)->0) as i64,
        ),
{
    assert(seq!['-'].skip(1) =~= Seq::<char>::empty());
    assert(seq!['+'].skip(1) =~= Seq::<char>::empty());
    if 0 <= i < s.len() && !is_digit(s[i]) && !(i == 0 && (s[0] == '-' || s[0] == '+')) {
        if signed_text(s) {
            assert(unsigned_part(s)[i - 1] == s[i]);
            assert(!all_digits(unsigned_part(s)));
        } else {
            assert(!all_digits(unsigned_part(s)));
        }
    }
    if s.len() > 0 && is_digit(s[0]) {
        assert((seq!['+'] + s).skip(1) =~= s);
        assert((seq!['-'] + s).skip(1) =~= s);
        assert(!signed_text(s));
        assert(unsigned_part(s) == s);
        assert((seq!['-'] + s)[0] == '-');
        assert(signed_text(seq!['-'] + s));
        assert(unsigned_part(seq!['-'] + s) == s);
        assert((seq!['+'] + s)[0] == '+');
        assert(unsigned_part(seq!['+'] + s) == s);
        if all_digits(s) {
            lemma_digits_value_prefix(s, 0);
        }
    }
}

} // verus!
