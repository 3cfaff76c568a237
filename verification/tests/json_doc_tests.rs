use merchant_monitor::analyzed_order::{Order as OldOrder, OrderAnalyze as OldAnalyze};
use merchant_monitor::character::parse_i64;
use merchant_monitor::character::token_holder::read_login_answer;
use merchant_monitor::json_doc::{
    parse_json, read_bool, read_i64, read_number_field, read_text, read_u32, JsonDoc, NumberField,
};
use merchant_monitor::order::order_analyze::OrderAnalyze;
use merchant_monitor::order::price::PriceField;
use merchant_monitor::order::{read_price_bits, read_price_field, Order, OrderField};

fn doc(text: &str) -> JsonDoc {
    parse_json(text).expect("test text is JSON")
}

fn bits(x: f64) -> u64 {
    x.to_bits()
}

#[test]
fn parse_json_reads_a_document() {
    let d = doc(r#"{"a": 5, "b": -3, "c": true, "d": "x", "e": 1.5, "f": null, "g": [1, 2, 3]}"#);
    assert_eq!(d.len(), 7);
    assert_eq!(read_i64(d.get("a")), Some(5));
    assert_eq!(read_i64(d.get("b")), Some(-3));
    assert_eq!(read_u32(d.get("a")), Some(5));
    assert_eq!(read_u32(d.get("b")), None);
    assert_eq!(read_bool(d.get("c")), Some(true));
    assert_eq!(read_bool(d.get("a")), None);
    assert_eq!(read_text(d.get("d")), "x");
    assert_eq!(read_text(d.get("c")), "true");
    assert_eq!(read_text(d.get("f")), "null");
    assert_eq!(read_text(d.get("missing")), "null");
    assert_eq!(read_text(d.get("a")), "5");
    assert_eq!(read_text(d.get("b")), "-3");
    assert_eq!(read_text(d.get("e")), "1.5");
    assert_eq!(read_text(d.get("g")), "[1,2,3]");
    assert_eq!(read_i64(d.get("e")), None);
    assert!(matches!(
        read_number_field(d.get("e")),
        NumberField::Number { positive: true, mantissa: 15, exponent: -1 }
    ));
    assert!(matches!(read_number_field(d.get("f")), NumberField::Null));
    assert!(matches!(read_number_field(d.get("missing")), NumberField::Null));
    assert!(matches!(read_number_field(d.get("d")), NumberField::Other));
    let items = d.get("g").and_then(|g| g.members()).expect("g is an array");
    assert_eq!(items.len(), 3);
    assert_eq!(read_i64(Some(&items[2])), Some(3));
    assert!(d.members().is_none());
}

#[test]
fn parse_json_refuses_what_is_not_json() {
    assert!(parse_json("{ not json").is_none());
    assert!(parse_json("").is_none());
    assert!(matches!(parse_json("null"), Some(JsonDoc::Null)));
    assert_eq!(doc("12").len(), 0);
}

#[test]
fn get_takes_the_key_it_is_asked_for() {
    let d = doc(r#"{"x": 1, "y": 2}"#);
    assert_eq!(read_i64(d.get("y")), Some(2));
    assert!(d.get("z").is_none());
    assert!(doc("[1]").get("x").is_none());
}

#[test]
fn order_from_json_reads_the_fields() {
    let d = doc(r#"{"is_buy_order": true, "order_id": 77, "price": 12.5, "region_id": 10000002, "type_id": 34}"#);
    let o = Order::from_json(&d, Some(bits(12.5)));
    assert!(o.is_buy_order);
    assert_eq!(o.order_id, 77);
    assert_eq!(f64::from_bits(o.price.to_bits()), 12.5);
    assert_eq!(o.region_id, Some(10000002));
    assert_eq!(o.type_id, 34);
}

#[test]
fn order_from_json_names_the_first_bad_field() {
    let no_flag = doc(r#"{"order_id": 77, "price": 1.0, "type_id": 34}"#);
    assert!(matches!(Order::read_json(&no_flag, Some(bits(1.0))), Err(OrderField::IsBuyOrder)));
    let text_price = doc(r#"{"is_buy_order": false, "order_id": 7, "price": "1", "type_id": 34}"#);
    assert!(matches!(Order::read_json(&text_price, Some(bits(1.0))), Err(OrderField::Price)));
    let no_type = doc(r#"{"is_buy_order": false, "order_id": 7, "price": 2}"#);
    assert!(matches!(Order::read_json(&no_type, Some(bits(2.0))), Err(OrderField::TypeId)));
    let no_region = doc(r#"{"is_buy_order": false, "order_id": 7, "price": 2, "type_id": 3}"#);
    assert_eq!(Order::from_json(&no_region, Some(bits(2.0))).region_id, None);
}

#[test]
fn order_from_obsolete_json_reads_an_old_document() {
    let d = doc(r#"{"price": 5.0, "type_id": 34, "position": 2, "strongest_rival_price": null, "analyzed": 9}"#);
    let o = Order::from_obsolete_json(&d, Some(bits(5.0)), None);
    assert_eq!(o.order_id, -1);
    assert!(!o.is_buy_order);
    let standing = o.assay_result.unwrap();
    assert_eq!((standing.position, standing.analyzed), (2, 9));
    assert!(f64::from_bits(standing.best_price.to_bits()).is_nan());
    let bad = doc(r#"{"price": 5.0, "type_id": 34, "position": 2, "strongest_rival_price": "x", "analyzed": 9}"#);
    assert!(matches!(
        Order::read_obsolete_json(&bad, Some(bits(5.0)), None),
        Err(OrderField::StrongestRivalPrice)
    ));
}

#[test]
fn type_name_of_reads_name() {
    assert_eq!(Order::type_name_of(&doc(r#"{"name": "Tritanium"}"#)), "Tritanium");
    assert_eq!(Order::type_name_of(&doc(r#"{}"#)), "null");
}

#[test]
fn price_readers_follow_the_field() {
    let d = doc(r#"{"p": 3.25, "n": null, "s": "x"}"#);
    assert_eq!(read_price_bits(d.get("p"), Some(bits(3.25))), Some(bits(3.25)));
    assert_eq!(read_price_bits(d.get("n"), Some(bits(3.25))), None);
    assert!(matches!(read_price_field(d.get("p"), Some(7)), PriceField::Number(7)));
    assert!(matches!(read_price_field(d.get("n"), None), PriceField::Null));
    assert!(matches!(read_price_field(d.get("s"), None), PriceField::Other));
}

#[test]
fn order_analyze_from_json() {
    let d = doc(r#"{"position": 1, "price": 10.0, "strongest_rival_price": null, "analyzed": 4}"#);
    let a = OrderAnalyze::from_json(&d, Some(bits(10.0)), None);
    assert_eq!((a.position, a.analyzed), (1, 4));
    let old = OldAnalyze::read_json(&d, Some(bits(10.0)), None);
    assert!(matches!(old, Err(OrderField::StrongestRivalPrice)));
    let missing = doc(r#"{"price": 10.0}"#);
    assert!(matches!(OrderAnalyze::read_json(&missing, Some(bits(10.0)), None), Err(OrderField::Position)));
}

#[test]
fn old_order_from_json_reads_price_first() {
    let d = doc(r#"{"is_buy_order": true, "order_id": 5, "price": 8.0, "type_id": 34}"#);
    let o = OldOrder::from_json(&d, Some(bits(8.0)));
    assert_eq!(o.order_id, 5);
    assert_eq!(f64::from_bits(o.assay_result.price.to_bits()), 8.0);
    let no_price = doc(r#"{"order_id": 5}"#);
    assert!(matches!(OldOrder::read_json(&no_price, None), Err(OrderField::Price)));
}

#[test]
fn login_answer_reads_token_and_lifetime() {
    let a = read_login_answer(&doc(r#"{"access_token": "abc", "expires_in": 1199}"#));
    assert_eq!(a.access_token, "abc");
    assert_eq!(a.expires_in, Some(1199));
    let b = read_login_answer(&doc(r#"{"expires_in": -1}"#));
    assert_eq!(b.access_token, "null");
    assert_eq!(b.expires_in, None);
}

#[test]
fn parse_i64_reads_like_std() {
    for text in ["0", "42", "-7", "+7", "9223372036854775807", "-9223372036854775808", "", "-", "+",
        "9223372036854775808", "-9223372036854775809", "1a", " 1", "00012", "99999999999999999999999"].iter()
    {
        assert_eq!(parse_i64(text), text.parse::<i64>().ok(), "text {:?}", text);
    }
}
