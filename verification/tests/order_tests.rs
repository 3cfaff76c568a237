use merchant_monitor::order::order_analyze::OrderAnalyze;
use merchant_monitor::order::overprint::Overprint;
use merchant_monitor::order::price::{Price, PriceField};
use merchant_monitor::order::{orders_by_id, AssayReport, Order, OrderField};

fn price(x: f64) -> Price {
    Price::new(x.to_bits())
}

fn value(p: &Price) -> f64 {
    f64::from_bits(p.to_bits())
}

fn order(id: i64, is_buy: bool, p: f64) -> Order {
    Order {
        is_buy_order: is_buy,
        order_id: id,
        price: price(p),
        region_id: Some(10000002),
        type_id: 34,
        assay_result: Some(Overprint::new()),
    }
}

fn standing(position: i64, best: f64, analyzed: i64) -> Overprint {
    Overprint { position, best_price: price(best), analyzed }
}

#[test]
fn price_min_max_pick_numbers() {
    let a = price(5.5);
    let b = price(7.25);
    assert_eq!(value(Price::min(&a, &b)), 5.5);
    assert_eq!(value(Price::min(&b, &a)), 5.5);
    assert_eq!(value(Price::max(&a, &b)), 7.25);
    assert_eq!(value(Price::max(&b, &a)), 7.25);
}

#[test]
fn price_min_max_pass_over_nan() {
    let nan = Price::default();
    let a = price(3.0);
    assert!(nan.is_nan());
    assert_eq!(value(Price::min(&nan, &a)), 3.0);
    assert_eq!(value(Price::min(&a, &nan)), 3.0);
    assert_eq!(value(Price::max(&nan, &a)), 3.0);
    assert_eq!(value(Price::max(&a, &nan)), 3.0);
    assert!(Price::min(&nan, &nan).is_nan());
}

#[test]
fn price_order_follows_f64() {
    let values = [
        f64::NEG_INFINITY,
        -1e300,
        -2.5,
        -1e-310,
        -0.0,
        0.0,
        1e-310,
        1.0,
        2.5,
        1e300,
        f64::INFINITY,
    ];
    for x in values.iter() {
        for y in values.iter() {
            assert_eq!(price(*x) < price(*y), x < y, "{} < {}", x, y);
            assert_eq!(price(*x) == price(*y), x == y, "{} == {}", x, y);
            assert_eq!(price(*x).partial_cmp(&price(*y)), x.partial_cmp(y));
        }
    }
}

#[test]
fn price_nan_equals_nothing() {
    let nan = price(f64::NAN);
    assert!(nan != nan);
    assert!(nan != price(1.0));
    assert!(nan.partial_cmp(&price(1.0)).is_none());
    assert!(price(-0.0) == price(0.0));
}

#[test]
fn price_keeps_its_bits() {
    let p = price(-1234.5);
    assert_eq!(p.to_bits(), (-1234.5f64).to_bits());
    assert_eq!(Price::default().to_bits(), f64::NAN.to_bits());
}

#[test]
fn price_from_field() {
    assert!(Price::from_field(PriceField::Null).is_nan());
    assert_eq!(value(&Price::from_field(PriceField::Number(12.5f64.to_bits()))), 12.5);
    assert!(Price::read_field(PriceField::Null).unwrap().is_nan());
    assert!(Price::read_field(PriceField::Other).is_none());
}

#[test]
fn overprint_new_is_fresh() {
    let o = Overprint::new();
    assert_eq!(o.position, 0);
    assert_eq!(o.analyzed, 0);
    assert!(o.best_price.is_nan());
}

#[test]
fn take_into_account_sell_side() {
    let mut me = order(1, false, 100.0);
    me.take_into_account(&order(2, false, 90.0));
    me.take_into_account(&order(3, false, 110.0));
    me.take_into_account(&order(4, false, 95.0));
    let a = me.assay_result.unwrap();
    assert_eq!(a.position, 2);
    assert_eq!(a.analyzed, 3);
    assert_eq!(value(&a.best_price), 90.0);
}

#[test]
fn take_into_account_buy_side() {
    let mut me = order(1, true, 100.0);
    me.take_into_account(&order(2, true, 90.0));
    me.take_into_account(&order(3, true, 110.0));
    me.take_into_account(&order(4, true, 100.0));
    let a = me.assay_result.unwrap();
    assert_eq!(a.position, 1);
    assert_eq!(a.analyzed, 3);
    assert_eq!(value(&a.best_price), 110.0);
}

#[test]
fn take_into_account_equal_price_is_not_ahead() {
    let mut me = order(1, false, 100.0);
    me.take_into_account(&order(2, false, 100.0));
    let a = me.assay_result.unwrap();
    assert_eq!(a.position, 0);
    assert_eq!(a.analyzed, 1);
}

#[test]
fn assay_skips_the_order_itself() {
    let mut me = order(7, false, 50.0);
    me.assay_result = Some(standing(9, 1.0, 9));
    let rivals = vec![order(3, false, 40.0), order(7, false, 50.0), order(5, false, 60.0)];
    let found = me.assay(&rivals);
    assert!(found);
    let a = me.assay_result.unwrap();
    assert_eq!(a.position, 1);
    assert_eq!(a.analyzed, 2);
    assert_eq!(value(&a.best_price), 40.0);
    assert_eq!(me.order_id, 7);
    assert_eq!(value(&me.price), 50.0);
}

#[test]
fn assay_reports_missing_self() {
    let mut me = order(7, true, 50.0);
    let rivals = vec![order(3, true, 40.0), order(4, true, 45.0)];
    assert!(!me.assay(&rivals));
    let a = me.assay_result.unwrap();
    assert_eq!(a.position, 0);
    assert_eq!(a.analyzed, 2);
    assert_eq!(value(&a.best_price), 45.0);
}

#[test]
fn assay_without_rivals() {
    let mut me = order(7, true, 50.0);
    assert!(!me.assay(&vec![]));
    let a = me.assay_result.unwrap();
    assert_eq!((a.position, a.analyzed), (0, 0));
    assert!(a.best_price.is_nan());
}

#[test]
fn report_nothing_changed() {
    let mut now = order(1, false, 10.0);
    now.assay_result = Some(standing(2, 9.0, 5));
    let mut prev = order(1, false, 10.0);
    prev.assay_result = Some(standing(2, 8.0, 5));
    assert!(now.render_assay_report(Some(&prev)).is_none());
}

#[test]
fn report_repriced_to_first() {
    let mut now = order(1, false, 10.0);
    now.assay_result = Some(standing(0, 11.0, 5));
    let mut prev = order(1, false, 12.0);
    prev.assay_result = Some(standing(3, 9.0, 5));
    assert!(now.render_assay_report(Some(&prev)).is_none());
}

#[test]
fn report_rivals_gone() {
    let mut now = order(1, false, 10.0);
    now.assay_result = Some(standing(0, f64::NAN, 0));
    let mut prev = order(1, false, 10.0);
    prev.assay_result = Some(standing(0, 9.0, 4));
    match now.render_assay_report(Some(&prev)) {
        Some(AssayReport::NoAssay { price }) => assert_eq!(value(&price), 10.0),
        other => panic!("unexpected {:?}", other),
    }
}

#[test]
fn report_position_changed() {
    let mut now = order(1, true, 10.0);
    now.assay_result = Some(standing(2, 12.0, 6));
    let mut prev = order(1, true, 10.0);
    prev.assay_result = Some(standing(0, 9.0, 6));
    match now.render_assay_report(Some(&prev)) {
        Some(AssayReport::PositionChanged { previous_place, place, price, best_price, is_buy_order }) => {
            assert_eq!(previous_place, 1);
            assert_eq!(place, 3);
            assert_eq!(value(&price), 10.0);
            assert_eq!(value(&best_price), 12.0);
            assert!(is_buy_order);
        }
        other => panic!("unexpected {:?}", other),
    }
}

#[test]
fn report_more_rivals_same_place() {
    let mut now = order(1, true, 10.0);
    now.assay_result = Some(standing(2, 12.0, 7));
    let mut prev = order(1, true, 10.0);
    prev.assay_result = Some(standing(2, 12.0, 6));
    assert!(now.render_assay_report(Some(&prev)).is_none());
}

#[test]
fn report_new_order_not_first() {
    let mut now = order(1, false, 10.0);
    now.assay_result = Some(standing(3, 8.0, 9));
    match now.render_assay_report(None) {
        Some(AssayReport::Placed { place, of, price, is_buy_order }) => {
            assert_eq!((place, of), (4, 10));
            assert_eq!(value(&price), 10.0);
            assert!(!is_buy_order);
        }
        other => panic!("unexpected {:?}", other),
    }
}

#[test]
fn report_new_order_first() {
    let mut now = order(1, false, 10.0);
    now.assay_result = Some(standing(0, 12.0, 9));
    assert!(now.render_assay_report(None).is_none());
}

#[test]
fn from_fields_reads_an_order() {
    let o = Order::from_fields(Some(true), Some(42), Some(5.5f64.to_bits()), None, Some(34)).unwrap();
    assert!(o.is_buy_order);
    assert_eq!(o.order_id, 42);
    assert_eq!(value(&o.price), 5.5);
    assert_eq!(o.region_id, None);
    assert_eq!(o.type_id, 34);
    let a = o.assay_result.unwrap();
    assert_eq!((a.position, a.analyzed), (0, 0));
    assert!(a.best_price.is_nan());
}

#[test]
fn from_fields_names_the_first_missing_field() {
    let bits = Some(1.0f64.to_bits());
    assert_eq!(Order::from_fields(None, None, None, None, None).err(), Some(OrderField::IsBuyOrder));
    assert_eq!(Order::from_fields(Some(false), None, bits, None, Some(1)).err(), Some(OrderField::OrderId));
    assert_eq!(Order::from_fields(Some(false), Some(1), None, None, Some(1)).err(), Some(OrderField::Price));
    assert_eq!(Order::from_fields(Some(false), Some(1), bits, Some(3), None).err(), Some(OrderField::TypeId));
}

#[test]
fn from_obsolete_fields_reads_an_old_document() {
    let o = Order::from_obsolete_fields(
        PriceField::Number(99.0f64.to_bits()),
        Some(34),
        Some(2),
        PriceField::Null,
        Some(7),
    )
    .unwrap();
    assert!(!o.is_buy_order);
    assert_eq!(o.order_id, -1);
    assert_eq!(o.region_id, None);
    assert_eq!(o.type_id, 34);
    assert_eq!(value(&o.price), 99.0);
    let a = o.assay_result.unwrap();
    assert_eq!((a.position, a.analyzed), (2, 7));
    assert!(a.best_price.is_nan());
}

#[test]
fn from_obsolete_fields_errors() {
    let n = PriceField::Number(1.0f64.to_bits());
    assert_eq!(Order::from_obsolete_fields(PriceField::Other, Some(1), Some(1), n, Some(1)).err(), Some(OrderField::Price));
    assert_eq!(Order::from_obsolete_fields(n, None, Some(1), n, Some(1)).err(), Some(OrderField::TypeId));
    assert_eq!(Order::from_obsolete_fields(n, Some(1), None, n, Some(1)).err(), Some(OrderField::Position));
    assert_eq!(
        Order::from_obsolete_fields(n, Some(1), Some(1), PriceField::Other, Some(1)).err(),
        Some(OrderField::StrongestRivalPrice)
    );
    assert_eq!(Order::from_obsolete_fields(n, Some(1), Some(1), n, None).err(), Some(OrderField::Analyzed));
}

#[test]
fn order_type_words() {
    assert_eq!(order(1, true, 1.0).order_type(), "buy");
    assert_eq!(order(1, false, 1.0).order_type(), "sell");
}

#[test]
fn type_name_url_of_order() {
    assert_eq!(order(1, true, 1.0).type_name_url(), "https://esi.evetech.net/v3/universe/types/34/");
}

#[test]
fn orders_by_id_keeps_the_last() {
    let list = vec![order(1, true, 1.0), order(2, true, 2.0), order(1, true, 3.0)];
    let m = orders_by_id(&list);
    assert_eq!(m.len(), 2);
    assert_eq!(value(&m[&1].price), 3.0);
    assert_eq!(value(&m[&2].price), 2.0);
}

#[test]
fn order_analyze_counts_like_order() {
    let mut a = OrderAnalyze::new(price(100.0));
    assert_eq!((a.position, a.analyzed), (0, 0));
    assert!(a.strongest_rival_price.is_nan());
    let rivals = [order(2, false, 90.0), order(3, false, 120.0), order(4, false, 80.0)];
    let mut me = order(1, false, 100.0);
    for r in rivals.iter() {
        a.take_into_account(r);
        me.take_into_account(r);
    }
    let o = me.assay_result.unwrap();
    assert_eq!(a.position, o.position);
    assert_eq!(a.analyzed, o.analyzed);
    assert_eq!(value(&a.strongest_rival_price), value(&o.best_price));
    assert_eq!((a.position, a.analyzed), (2, 3));
    assert_eq!(value(&a.strongest_rival_price), 80.0);
}

#[test]
fn min_max_do_not_depend_on_argument_order() {
    let ps = [price(1.0), price(-3.0), price(f64::NAN), price(0.0), price(-0.0), price(7.5)];
    for a in ps.iter() {
        for b in ps.iter() {
            let m1 = Price::min(a, b);
            let m2 = Price::min(b, a);
            assert!(m1 == m2 || (m1.is_nan() && m2.is_nan()));
            let x1 = Price::max(a, b);
            let x2 = Price::max(b, a);
            assert!(x1 == x2 || (x1.is_nan() && x2.is_nan()));
            assert_eq!(m1.is_nan(), a.is_nan() && b.is_nan());
        }
    }
}

#[test]
fn assay_place_never_passes_rival_count() {
    let mut me = order(1, false, 50.0);
    let rivals: Vec<Order> = (0..20).map(|i| order(100 + i, false, (i * 7 % 13) as f64 * 10.0)).collect();
    me.assay(&rivals);
    let a = me.assay_result.unwrap();
    assert!(0 <= a.position && a.position <= a.analyzed && a.analyzed == 20);
    let ahead = rivals.iter().filter(|r| value(&r.price) < 50.0).count() as i64;
    assert_eq!(a.position, ahead);
}

#[test]
fn second_assay_repeats_the_first() {
    let rivals = vec![order(3, false, 40.0), order(7, false, 50.0), order(5, false, 30.0)];
    let mut once = order(7, false, 50.0);
    once.assay(&rivals);
    let mut twice = once;
    twice.assay(&rivals);
    let (a, b) = (once.assay_result.unwrap(), twice.assay_result.unwrap());
    assert_eq!((a.position, a.analyzed), (2, 2));
    assert_eq!((b.position, b.analyzed), (a.position, a.analyzed));
    assert_eq!(value(&b.best_price), value(&a.best_price));
}

#[test]
fn assay_ignores_the_old_standing() {
    let rivals = vec![order(3, true, 60.0), order(4, true, 40.0)];
    let mut fresh = order(7, true, 50.0);
    let mut stale = order(7, true, 50.0);
    stale.assay_result = Some(standing(40, 99.0, 80));
    fresh.assay(&rivals);
    stale.assay(&rivals);
    let (a, b) = (fresh.assay_result.unwrap(), stale.assay_result.unwrap());
    assert_eq!((a.position, a.analyzed), (1, 2));
    assert_eq!((b.position, b.analyzed), (a.position, a.analyzed));
    assert_eq!(value(&b.best_price), 60.0);
}

#[test]
fn report_messages() {
    let gone = AssayReport::NoAssay { price: price(5.0) };
    assert_eq!(gone.message("Tritanium", "5", "", ""), "Item *Tritanium* (`5`) don't have any assay");
    let moved = AssayReport::PositionChanged {
        previous_place: 1,
        place: 3,
        price: price(5.0),
        best_price: price(4.0),
        is_buy_order: false,
    };
    assert_eq!(moved.message("Tritanium", "5", "4", "1"), "1 \u{226b} 3 \u{394}P = 1 \u{2212} 5 = 4; sell *Tritanium*");
    let placed = AssayReport::Placed { place: 2, of: -9, price: price(5.0), is_buy_order: true };
    assert_eq!(placed.message("Pyerite", "5", "", ""), "Order *Pyerite* buy in `2:-9` price 5");
}
