use merchant_monitor::analyzed_order::{AnalyzeReport, Order, OrderAnalyze};
use merchant_monitor::order::price::{Price, PriceField};
use merchant_monitor::order::OrderField;
use merchant_monitor::order::order_analyze::OrderAnalyze as Standing;

fn price(x: f64) -> Price {
    Price::new(x.to_bits())
}

fn value(p: &Price) -> f64 {
    f64::from_bits(p.to_bits())
}

fn order(id: i64, is_buy: bool, p: f64) -> Order {
    Order::from_fields(Some(p.to_bits()), Some(is_buy), Some(id), Some(10000002), Some(34)).unwrap()
}

#[test]
fn analyze_new_starts_at_zero() {
    let a = OrderAnalyze::new(price(10.0));
    assert_eq!((a.position, a.analyzed), (0, 0));
    assert_eq!(value(&a.price), 10.0);
    assert_eq!(value(&a.strongest_rival_price), 0.0);
}

#[test]
fn analyze_sell_side_skips_zero() {
    let mut a = OrderAnalyze::new(price(100.0));
    a.take_into_account(&order(2, false, 120.0));
    assert_eq!(value(&a.strongest_rival_price), 120.0);
    a.take_into_account(&order(3, false, 90.0));
    assert_eq!(value(&a.strongest_rival_price), 90.0);
    a.take_into_account(&order(4, false, 95.0));
    assert_eq!(value(&a.strongest_rival_price), 90.0);
    assert_eq!((a.position, a.analyzed), (2, 3));
}

#[test]
fn analyze_buy_side_keeps_highest() {
    let mut a = OrderAnalyze::new(price(100.0));
    a.take_into_account(&order(2, true, 90.0));
    a.take_into_account(&order(3, true, 130.0));
    a.take_into_account(&order(4, true, 110.0));
    assert_eq!(value(&a.strongest_rival_price), 130.0);
    assert_eq!((a.position, a.analyzed), (2, 3));
}

#[test]
fn analyzed_assay_adds_to_the_standing() {
    let mut me = order(1, false, 100.0);
    let rivals = vec![order(2, false, 80.0), order(1, false, 100.0), order(3, false, 150.0)];
    assert!(me.assay(&rivals));
    assert_eq!((me.assay_result.position, me.assay_result.analyzed), (1, 2));
    assert_eq!(value(&me.assay_result.strongest_rival_price), 80.0);
    assert!(!me.assay(&vec![order(5, false, 70.0)]));
    assert_eq!((me.assay_result.position, me.assay_result.analyzed), (2, 3));
}

#[test]
fn analyzed_reports() {
    let mut me = order(1, true, 10.0);
    me.assay_result.position = 2;
    me.assay_result.analyzed = 4;
    let mut prev = OrderAnalyze::new(price(10.0));
    prev.analyzed = 4;
    match me.render_assay_report(Some(&prev)) {
        Some(AnalyzeReport::PositionChanged { previous_place, place, of, is_buy_order, .. }) => {
            assert_eq!((previous_place, place, of), (1, 3, 5));
            assert!(is_buy_order);
        }
        other => panic!("unexpected {:?}", other),
    }
    match me.render_assay_report(None) {
        Some(AnalyzeReport::Placed { place, of, .. }) => assert_eq!((place, of), (3, 5)),
        other => panic!("unexpected {:?}", other),
    }
    prev.position = 2;
    assert!(me.render_assay_report(Some(&prev)).is_none());
    me.assay_result.analyzed = 0;
    assert!(me.render_assay_report(Some(&prev)).is_none());
}

#[test]
fn analyzed_order_field_errors() {
    let b = Some(1.0f64.to_bits());
    assert_eq!(Order::from_fields(None, Some(true), Some(1), None, Some(1)).err(), Some(OrderField::Price));
    assert_eq!(Order::from_fields(b, None, Some(1), None, Some(1)).err(), Some(OrderField::IsBuyOrder));
    assert_eq!(Order::from_fields(b, Some(true), None, None, Some(1)).err(), Some(OrderField::OrderId));
    assert_eq!(Order::from_fields(b, Some(true), Some(1), None, None).err(), Some(OrderField::TypeId));
    let o = Order::from_fields(b, Some(true), Some(1), None, Some(1)).unwrap();
    assert_eq!(o.region_id, None);
}

#[test]
fn analyze_from_fields() {
    let a = OrderAnalyze::from_fields(Some(3), Some(5.0f64.to_bits()), Some(4.0f64.to_bits()), Some(8)).unwrap();
    assert_eq!((a.position, a.analyzed), (3, 8));
    assert_eq!(value(&a.price), 5.0);
    assert_eq!(value(&a.strongest_rival_price), 4.0);
    assert_eq!(OrderAnalyze::from_fields(None, None, None, None).err(), Some(OrderField::Position));
    assert_eq!(OrderAnalyze::from_fields(Some(1), Some(0), None, Some(1)).err(), Some(OrderField::StrongestRivalPrice));
}

#[test]
fn standing_from_fields_with_null_price() {
    let a = Standing::from_fields(Some(1), PriceField::Number(2.0f64.to_bits()), PriceField::Null, Some(2)).unwrap();
    assert!(a.strongest_rival_price.is_nan());
    assert_eq!(value(&a.price), 2.0);
    assert_eq!(Standing::from_fields(Some(1), PriceField::Other, PriceField::Null, Some(2)).err(), Some(OrderField::Price));
    assert_eq!(Standing::from_fields(Some(1), PriceField::Null, PriceField::Null, None).err(), Some(OrderField::Analyzed));
}

#[test]
fn analyzed_assay_counts_up_to_the_limit() {
    let mut me = order(1, false, 100.0);
    me.assay_result.analyzed = i64::MAX - 1;
    me.assay_result.position = i64::MAX - 1;
    let rivals = vec![order(1, false, 100.0), order(2, false, 90.0)];
    assert!(me.assay(&rivals));
    assert_eq!(me.assay_result.analyzed, i64::MAX);
    assert_eq!(me.assay_result.position, i64::MAX);
}
