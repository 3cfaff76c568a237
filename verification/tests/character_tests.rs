use std::collections::HashMap;

use merchant_monitor::character::token_holder::{TokenHolder, TokenRefreshError};
use merchant_monitor::character::{parse_i64, Character};
use merchant_monitor::character::token_holder::read_login_answer;
use merchant_monitor::json_doc::parse_json;
use merchant_monitor::decimal::i64_to_decimal;
use merchant_monitor::order::overprint::Overprint;
use merchant_monitor::order::price::Price;
use merchant_monitor::order::{AssayReport, Order};
use merchant_monitor::requests::{
    api_url, checked_request_step, market_orders_path, next_market_page, request_step, telegram_send_url,
    RequestStep,
};

fn token(timestamp: i64) -> TokenHolder {
    TokenHolder {
        access_token: "access".to_string(),
        refresh_token: "refresh".to_string(),
        timestamp,
    }
}

fn character(tg: &str, id: i64) -> Character {
    Character { name: "Trader".to_string(), tg: tg.to_string(), token: token(0), id }
}

fn order(id: i64, is_buy: bool, p: f64) -> Order {
    Order {
        is_buy_order: is_buy,
        order_id: id,
        price: Price::new(p.to_bits()),
        region_id: Some(10000002),
        type_id: 34,
        assay_result: Some(Overprint::new()),
    }
}

fn saved(id: i64, p: f64, position: i64, analyzed: i64) -> Order {
    let mut o = order(id, false, p);
    o.assay_result = Some(Overprint { position, best_price: Price::default(), analyzed });
    o
}

#[test]
fn decimal_writes_integers() {
    for n in [0i64, 7, 10, 1234567890, -1, -42, i64::MAX, i64::MIN].iter() {
        assert_eq!(i64_to_decimal(*n), n.to_string());
    }
}

#[test]
fn collection_name_is_the_id() {
    assert_eq!(character("1", 90000001).mongo_collection_name(), "90000001");
    assert_eq!(character("1", -5).mongo_collection_name(), "-5");
}

#[test]
fn orders_path_of_character() {
    assert_eq!(character("1", 2112).orders_path(), "/v1/characters/2112/orders/");
}

#[test]
fn say_addresses_the_chat() {
    let m = character("123456789", 1).say(&"hello".to_string());
    assert_eq!(m.chat_id, 123456789);
    assert_eq!(m.text, "hello");
    assert_eq!(character("-100200", 1).say(&"x".to_string()).chat_id, -100200);
    assert_eq!(character("+15", 1).say(&"x".to_string()).chat_id, 15);
}

#[test]
fn a_bad_chat_is_no_chat_id() {
    assert_eq!(parse_i64(""), None);
    assert_eq!(parse_i64("abc"), None);
    assert_eq!(parse_i64(" 12"), None);
    assert_eq!(parse_i64("99999999999999999999"), None);
    assert_eq!(parse_i64("-100200"), Some(-100200));
}

#[test]
fn analysis_compares_and_discharges() {
    // order 1 lost its first place, order 2 is new and not first,
    // order 3 is gone since the previous analysis
    let mut orders = vec![order(1, false, 100.0), order(2, false, 50.0)];
    let rivals = vec![
        vec![order(1, false, 100.0), order(9, false, 90.0)],
        vec![order(8, false, 40.0), order(2, false, 50.0)],
    ];
    let mut previous = HashMap::new();
    previous.insert(1, saved(1, 100.0, 0, 1));
    previous.insert(3, saved(3, 10.0, 0, 0));
    let a = Character::perfom_analysis(&mut orders, &rivals, previous);
    assert_eq!(a.found, vec![true, true]);
    match a.reports[0] {
        Some(AssayReport::PositionChanged { previous_place, place, .. }) => {
            assert_eq!((previous_place, place), (1, 2))
        }
        other => panic!("unexpected {:?}", other),
    }
    match a.reports[1] {
        Some(AssayReport::Placed { place, of, .. }) => assert_eq!((place, of), (2, 2)),
        other => panic!("unexpected {:?}", other),
    }
    assert_eq!(a.discharged.len(), 1);
    assert!(a.discharged.contains_key(&3));
    assert!(a.has_report());
    let s = orders[0].assay_result.unwrap();
    assert_eq!((s.position, s.analyzed), (1, 1));
}

#[test]
fn analysis_with_nothing_new() {
    let mut orders = vec![order(1, false, 100.0)];
    let rivals = vec![vec![order(1, false, 100.0), order(9, false, 110.0)]];
    let mut previous = HashMap::new();
    previous.insert(1, saved(1, 100.0, 0, 1));
    let a = Character::perfom_analysis(&mut orders, &rivals, previous);
    assert!(a.reports[0].is_none());
    assert!(a.discharged.is_empty());
    assert!(!a.has_report());
}

#[test]
fn token_due_within_twenty_seconds() {
    let t = token(1_000);
    assert!(!t.is_need_to_update_token_at(979_999_999_999));
    assert!(!t.is_need_to_update_token_at(980_000_000_000 - 1));
    assert!(t.is_need_to_update_token_at(980_000_000_001));
    assert!(t.is_need_to_update_token_at(2_000_000_000_000));
    assert!(!t.is_need_to_update_token_at(i128::MIN));
    assert!(t.is_need_to_update_token_at(i128::MAX));
}

#[test]
fn token_refresh_sets_expiry() {
    let mut t = token(0);
    assert_eq!(t.accept_refresh_at("new".to_string(), Some(1200), 1_700_000_000_500_000_000), Ok(()));
    assert_eq!(t.access_token, "new");
    assert_eq!(t.refresh_token, "refresh");
    assert_eq!(t.timestamp, 1_700_001_200);
    assert!(!t.is_need_to_update_token_at(1_700_000_000_500_000_000));
    let mut before = token(0);
    assert_eq!(before.accept_refresh_at("x".to_string(), Some(10), -1), Ok(()));
    assert_eq!(before.timestamp, 9);
}

#[test]
fn token_refresh_errors() {
    let mut t = token(5);
    assert_eq!(t.accept_refresh_at("new".to_string(), None, 0), Err(TokenRefreshError::MissingExpiry));
    assert_eq!(t.access_token, "access");
    assert_eq!(
        t.accept_refresh_at("new".to_string(), Some(1), i128::MAX),
        Err(TokenRefreshError::OutOfRange)
    );
    assert_eq!(t.timestamp, 5);
}

#[test]
fn token_refresh_reads_the_clock() {
    let mut t = token(0);
    assert_eq!(t.accept_refresh("new".to_string(), Some(3600)), Ok(()));
    assert_eq!(t.access_token, "new");
    assert!(t.timestamp > 1_600_000_000);
    assert!(!t.is_need_to_update_token());
    assert!(token(0).is_need_to_update_token());
}

#[test]
fn market_path_and_paging() {
    assert_eq!(
        market_orders_path(10000002, 3, 34, "sell"),
        "/v1/markets/10000002/orders/?page=3&type_id=34&order_type=sell"
    );
    assert_eq!(next_market_page(1, 1000), Some(2));
    assert_eq!(next_market_page(1, 999), None);
    assert_eq!(next_market_page(498, 1000), Some(499));
    assert_eq!(next_market_page(499, 1000), None);
}

#[test]
fn attempts_are_limited() {
    assert!(matches!(request_step(0, None), RequestStep::Retry(1)));
    assert!(matches!(request_step(8, None), RequestStep::Retry(9)));
    assert!(matches!(request_step(9, None), RequestStep::GiveUp));
}

#[test]
fn an_answer_ends_the_attempts() {
    match request_step(3, Some("[1, 2]")) {
        RequestStep::Done(doc) => assert_eq!(doc.len(), 2),
        other => panic!("unexpected step {:?}", other),
    }
    assert!(matches!(checked_request_step(9, Some("not json")), None));
    assert!(matches!(checked_request_step(9, None), Some(RequestStep::GiveUp)));
    assert!(matches!(checked_request_step(0, Some("{}")), Some(RequestStep::Done(_))));
}

#[test]
fn a_failing_request_is_sent_ten_times() {
    let mut attempt: u32 = 0;
    let mut sent = 1;
    while let RequestStep::Retry(next) = request_step(attempt, None) {
        assert_eq!(next, attempt + 1);
        attempt = next;
        sent += 1;
    }
    assert_eq!(sent, 10);
}

#[test]
fn integer_tokens_read_as_their_text() {
    let a = read_login_answer(&parse_json(r#"{"access_token": 7, "expires_in": 1200}"#).unwrap());
    assert_eq!(a.access_token, "7");
    assert_eq!(a.expires_in, Some(1200));
    let b = read_login_answer(&parse_json(r#"{"access_token": -12, "expires_in": 5}"#).unwrap());
    assert_eq!(b.access_token, "-12");
}

#[test]
fn urls() {
    assert_eq!(api_url("https://esi.evetech.net", "/v1/x"), "https://esi.evetech.net/v1/x");
    assert_eq!(telegram_send_url("https://api.telegram.org", "T0K"), "https://api.telegram.org/botT0K/sendMessage");
}

#[test]
fn collection_name_reads_back_as_chat() {
    for id in [0i64, 42, -7, i64::MIN, i64::MAX].iter() {
        let c = character(&character("1", *id).mongo_collection_name(), 1);
        assert_eq!(c.say(&"x".to_string()).chat_id, *id);
    }
}

#[test]
fn fresh_token_is_not_due() {
    let mut t = token(0);
    let now: i128 = 1_700_000_000_999_999_999;
    t.accept_refresh_at("a".to_string(), Some(21), now).unwrap();
    assert!(!t.is_need_to_update_token_at(now));
}

#[test]
fn telegram_body_holds_text_chat_and_mode() {
    let m = character("-100123", 1).say(&"Order *x*".to_string());
    assert_eq!(m.body(), r#"{"text":"Order *x*","chat_id":-100123,"parse_mode":"Markdown"}"#);
}
