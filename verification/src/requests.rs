//! The decisions of the web requests: which paths to ask for, when to ask
//! again, and when a listing has more pages.
use vstd::prelude::*;
use vstd::string::StringExecFns;
use crate::decimal::{int_decimal, push_i64};
use crate::json_doc::{JsonDoc, json_document, parse_json};
use crate::text::{starts_with, ends_with, lemma_joined};

verus! {

/// How many items a full page of market orders holds.
pub const MARKET_PAGE_SIZE: usize = 1000;

/// Market order pages are asked for from page 1 up to page 499.
pub const LAST_MARKET_PAGE: u32 = 499;

/// How many times a request is tried before it is given up.
pub const REQUEST_ATTEMPTS: u32 = 10;

/// The path of one page of a region's market orders of one item type.
pub open spec fn market_orders_path_of(market_id: int, page: int, type_id: int, order_type: Seq<char>) -> Seq<char> {
    "/v1/markets/"@ + int_decimal(market_id) + "/orders/?page="@ + int_decimal(page) + "&type_id="@
        + int_decimal(type_id) + "&order_type="@ + order_type
}

/// The path of one page of a region's market orders of one item type, on
/// one side (`"buy"` or `"sell"`).
pub fn market_orders_path(market_id: i64, page: u32, type_id: i64, order_type: &str) -> (path: String)
    ensures
        path@ == market_orders_path_of(market_id as int, page as int, type_id as int, order_type@),
{
    let mut path = String::from_str("/v1/markets/");
    push_i64(&mut path, market_id);
    path.append("/orders/?page=");
    push_i64(&mut path, page as i64);
    path.append("&type_id=");
    push_i64(&mut path, type_id);
    path.append("&order_type=");
    path.append(order_type);
    path
}

/// A market path names the market it is asked for first and ends with the
/// side it is asked for, so the paths of two different sides differ.
pub proof fn lemma_market_path_side(
    market_id: int,
    page: int,
    type_id: int,
    order_type: Seq<char>,
    other_type: Seq<char>,
)
    ensures
        starts_with(
            market_orders_path_of(market_id, page, type_id, order_type),
            "/v1/markets/"@ + int_decimal(market_id) + "/orders/?page="@,
        ),
        ends_with(market_orders_path_of(market_id, page, type_id, order_type), "&order_type="@ + order_type),
        order_type != other_type ==> market_orders_path_of(market_id, page, type_id, order_type)
            != market_orders_path_of(market_id, page, type_id, other_type),
{
    let head = "/v1/markets/"@ + int_decimal(market_id) + "/orders/?page="@;
    let rest = int_decimal(page) + "&type_id="@ + int_decimal(type_id) + "&order_type="@;
    let path = market_orders_path_of(market_id, page, type_id, order_type);
    let other = market_orders_path_of(market_id, page, type_id, other_type);
    assert(path =~= head + (rest + order_type));
    lemma_joined(head, rest + order_type);
    let front = head + int_decimal(page) + "&type_id="@ + int_decimal(type_id);
    assert(path =~= front + ("&order_type="@ + order_type));
    lemma_joined(front, "&order_type="@ + order_type);
    let whole = front + "&order_type="@;
    assert(path =~= whole + order_type);
    assert(other =~= whole + other_type);
    if path == other {
        assert(path.subrange(whole.len() as int, path.len() as int) =~= order_type);
        assert(other.subrange(whole.len() as int, other.len() as int) =~= other_type);
    }
}

/// The page that follows page `page` of a listing when it came back with
/// `page_len` orders: the next one after a full page below the last page,
/// else none.
pub open spec fn next_page_of(page: int, page_len: int) -> Option<u32> {
    if page_len == MARKET_PAGE_SIZE && page < LAST_MARKET_PAGE {
        Some((page + 1) as u32)
    } else {
        None
    }
}

/// A page that is not full ends a listing; after a full page the next page
/// is asked for, up to page 499 and never past it.
pub proof fn lemma_paging(page: u32, page_len: int)
    ensures
        page_len != 1000 ==> next_page_of(page as int, page_len) is None,
        page_len == 1000 && page < 499 ==> next_page_of(page as int, page_len) == Some((page + 1) as u32),
        next_page_of(page as int, page_len) matches Some(next) ==> next == page + 1 && next <= 499,
        next_page_of(499, page_len) is None,
{
}

/// The address of an API path on a host.
pub open spec fn api_url_of(host: Seq<char>, path: Seq<char>) -> Seq<char> {
    host + path
}

/// The address of the Telegram bot method that sends a message.
pub open spec fn telegram_send_url_of(domain: Seq<char>, token: Seq<char>) -> Seq<char> {
    domain + "/bot"@ + token + "/sendMessage"@
}

/// An API address is the host followed by the path; the address that sends
/// a Telegram message is on the given domain and ends with the bot's token
/// and the `sendMessage` method.
pub proof fn lemma_addresses(host: Seq<char>, path: Seq<char>, domain: Seq<char>, token: Seq<char>)
    ensures
        starts_with(api_url_of(host, path), host),
        ends_with(api_url_of(host, path), path),
        api_url_of(host, path).len() == host.len() + path.len(),
        starts_with(telegram_send_url_of(domain, token), domain + "/bot"@),
        ends_with(telegram_send_url_of(domain, token), "/bot"@ + token + "/sendMessage"@),
{
    lemma_joined(host, path);
    let t = telegram_send_url_of(domain, token);
    assert(t =~= (domain + "/bot"@) + (token + "/sendMessage"@));
    lemma_joined(domain + "/bot"@, token + "/sendMessage"@);
    assert(t =~= domain + ("/bot"@ + token + "/sendMessage"@));
    lemma_joined(domain, "/bot"@ + token + "/sendMessage"@);
}

/// After page `page` came back with `page_len` orders: the next page to ask
/// for, or nothing when the listing is complete (a page that is not full)
/// or the last page was asked for.
pub fn next_market_page(page: u32, page_len: usize) -> (next: Option<u32>)
    ensures
        next == next_page_of(page as int, page_len as int),
{
    if page_len != MARKET_PAGE_SIZE {
        None
    } else if page < LAST_MARKET_PAGE {
        Some(page + 1)
    } else {
        None
    }
}

/// What to do after an attempt at a request: the document the answer's text
/// holds, another attempt, or giving up.
#[derive(Debug)]
pub enum RequestStep {
    Done(JsonDoc),
    Retry(u32),
    GiveUp,
}

/// What follows a failed attempt `attempt`: the next attempt while any are
/// left, else giving up.
pub open spec fn failure_step(attempt: int) -> RequestStep {
    if attempt + 1 < REQUEST_ATTEMPTS {
        RequestStep::Retry((attempt + 1) as u32)
    } else {
        RequestStep::GiveUp
    }
}

/// How many requests are sent from attempt `attempt` on when every one of
/// them fails: this one, then those after each retry.
pub open spec fn requests_until_give_up(attempt: int) -> nat
    decreases REQUEST_ATTEMPTS - attempt,
{
    if attempt < 0 || attempt >= REQUEST_ATTEMPTS {
        1
    } else {
        match failure_step(attempt) {
            RequestStep::Retry(next) => 1 + requests_until_give_up(next as int),
            _ => 1,
        }
    }
}

/// A request that keeps failing is sent `REQUEST_ATTEMPTS` times and then
/// given up: each retry moves to the next attempt, and the last attempt
/// gives up.
pub proof fn lemma_attempts_are_bounded()
    ensures
        requests_until_give_up(0) == REQUEST_ATTEMPTS,
        forall|a: int| 0 <= a < REQUEST_ATTEMPTS - 1 ==> #[trigger] failure_step(a) == RequestStep::Retry((a + 1) as u32),
        failure_step(REQUEST_ATTEMPTS - 1) == RequestStep::GiveUp,
{
    lemma_requests_from(0);
}

/// From attempt `a` on, a request that keeps failing is sent once for each
/// attempt left.
proof fn lemma_requests_from(a: int)
    requires
        0 <= a <= REQUEST_ATTEMPTS,
    ensures
        requests_until_give_up(a) == if a == REQUEST_ATTEMPTS { 1 } else { REQUEST_ATTEMPTS - a },
    decreases REQUEST_ATTEMPTS - a,
{
    if a < REQUEST_ATTEMPTS - 1 {
        lemma_requests_from(a + 1);
    }
}

/// After attempt `attempt` (counted from 0): `answer` is the text of an
/// answer with status 200, `None` where the request failed or the status
/// was another. A text, which has to be JSON, is parsed and done with; a
/// failure is tried again until all attempts are used up.
pub fn request_step(attempt: u32, answer: Option<&str>) -> (r: RequestStep)
    requires
        attempt < REQUEST_ATTEMPTS,
        answer matches Some(text) ==> json_document(text@) is Some,
    ensures
        match answer {
            Some(text) => r == RequestStep::Done(json_document(text@)->0),
            None => r == failure_step(attempt as int),
        },
{
    match answer {
        Some(text) => RequestStep::Done(parse_json(text).unwrap()),
        None => {
            let next = attempt + 1;
            if next == REQUEST_ATTEMPTS {
                RequestStep::GiveUp
            } else {
                RequestStep::Retry(next)
            }
        },
    }
}

/// `request_step` where the answer's text is JSON; `None` where it is not.
pub fn checked_request_step(attempt: u32, answer: Option<&str>) -> (r: Option<RequestStep>)
    requires
        attempt < REQUEST_ATTEMPTS,
    ensures
        match answer {
            Some(text) => match json_document(text@) {
                Some(d) => r == Some(RequestStep::Done(d)),
                None => r is None,
            },
            None => r == Some(failure_step(attempt as int)),
        },
{
    if let Some(text) = answer {
        if parse_json(text).is_none() {
            return None;
        }
    }
    Some(request_step(attempt, answer))
}

/// The full address of an API path on `host`.
pub fn api_url(host: &str, path: &str) -> (url: String)
    ensures
        url@ == api_url_of(host@, path@),
{
    let mut url = String::from_str(host);
    url.append(path);
    url
}

/// The address of the Telegram bot method that sends a message.
pub fn telegram_send_url(domain: &str, token: &str) -> (url: String)
    ensures
        url@ == telegram_send_url_of(domain@, token@),
{
    let mut url = String::from_str(domain);
    url.append("/bot");
    url.append(token);
    url.append("/sendMessage");
    url
}

} // verus!
