use apcacli::decimal::Decimal;
use apcacli::guard::command;
use apcacli::guard::evaluate_position;
use apcacli::guard::evaluate_positions_and_orders;
use apcacli::guard::protective_orders;
use apcacli::guard::Decision;
use apcacli::guard::GuardConfig;
use apcacli::guard::Reason;
use apcacli::order::determine_order_type;
use apcacli::order::Amount;
use apcacli::order::Order;
use apcacli::order::Side as OrderSide;
use apcacli::order::TimeInForce;
use apcacli::order::Type;
use apcacli::position::Position;
use apcacli::position::Side as PositionSide;

fn dec(numer: i128, denom: i128) -> Decimal {
    Decimal::new(numer, denom).unwrap()
}

fn same(a: &Decimal, b: &Decimal) -> bool {
    a.equals(b)
}

fn position(symbol: &str, gain: Decimal) -> Position {
    Position {
        symbol: symbol.to_string(),
        side: PositionSide::Long,
        quantity: dec(100, 1),
        average_entry_price: dec(15000, 100),
        current_price: Some(dec(159, 1)),
        unrealized_gain_total_percent: Some(gain),
    }
}

fn stop_limit(id: &str, symbol: &str, quantity: Decimal, limit: Decimal, stop: Decimal) -> Order {
    Order {
        id: id.to_string(),
        symbol: symbol.to_string(),
        side: OrderSide::Sell,
        amount: Amount::Quantity { quantity },
        limit_price: Some(limit),
        stop_price: Some(stop),
        time_in_force: TimeInForce::UntilCanceled,
    }
}

fn expect_submit(d: &Decision, symbol: &str, quantity: Decimal, limit: Decimal, stop: Decimal) {
    match d {
        Decision::SubmitNewOrder { symbol: s, side, quantity: q, limit_price, stop_price } => {
            assert_eq!(s, symbol);
            assert_eq!(*side, OrderSide::Sell);
            assert!(same(q, &quantity));
            assert!(same(limit_price, &limit));
            assert!(same(stop_price, &stop));
            assert_eq!(limit_price.denom, 100);
            assert_eq!(stop_price.denom, 100);
        },
        other => panic!("expected a new order, got {:?}", other),
    }
}

fn expect_rejected(d: &Decision, reason: Reason) {
    match d {
        Decision::Rejected { reason: r } => assert_eq!(*r, reason),
        other => panic!("expected a rejection, got {:?}", other),
    }
}

fn expect_no_action(d: &Decision) {
    assert!(matches!(d, Decision::NoActionNeeded), "expected no action, got {:?}", d);
}

#[test]
fn unprotected_gaining_position_gets_new_order() {
    let p = position("AAPL", dec(6, 100));
    let d = evaluate_position(&GuardConfig::new(), &p, &[]);
    expect_submit(&d, "AAPL", dec(100, 1), dec(15015, 100), dec(15150, 100));
}

#[test]
fn matching_order_needs_no_action() {
    let p = position("AAPL", dec(6, 100));
    let orders = vec![stop_limit("o1", "AAPL", dec(100, 1), dec(15015, 100), dec(15150, 100))];
    expect_no_action(&evaluate_position(&GuardConfig::new(), &p, &orders));
}

#[test]
fn order_for_today_is_rejected() {
    let p = position("AAPL", dec(6, 100));
    let mut order = stop_limit("o1", "AAPL", dec(100, 1), dec(15015, 100), dec(15150, 100));
    order.time_in_force = TimeInForce::Today;
    let d = evaluate_position(&GuardConfig::new(), &p, &[order]);
    expect_rejected(&d, Reason::NotUntilCanceled);
    if let Decision::Rejected { reason } = d {
        assert!(reason.message().contains("not valid-until-canceled"));
    }
}

#[test]
fn low_order_is_amended() {
    let p = position("AAPL", dec(6, 100));
    let orders = vec![stop_limit("o1", "AAPL", dec(50, 1), dec(140, 1), dec(145, 1))];
    match evaluate_position(&GuardConfig::new(), &p, &orders) {
        Decision::AmendOrder { order_id, new_quantity, new_limit_price, new_stop_price } => {
            assert_eq!(order_id, "o1");
            assert!(same(&new_quantity, &dec(100, 1)));
            assert!(same(&new_limit_price, &dec(15015, 100)));
            assert!(same(&new_stop_price, &dec(15150, 100)));
        },
        other => panic!("expected an amendment, got {:?}", other),
    }
}

#[test]
fn higher_protection_is_left_alone() {
    let p = position("AAPL", dec(6, 100));
    let orders = vec![stop_limit("o1", "AAPL", dec(1000, 10), dec(160, 1), dec(170, 1))];
    expect_no_action(&evaluate_position(&GuardConfig::new(), &p, &orders));
    let mut lower = GuardConfig::new();
    lower.stop_markup_bps = 50;
    lower.limit_markup_bps = 0;
    expect_no_action(&evaluate_position(&lower, &p, &orders));
}

#[test]
fn evaluating_again_after_acting_asks_nothing_more() {
    let p = position("AAPL", dec(6, 100));
    let config = GuardConfig::new();
    let first = evaluate_position(&config, &p, &[]);
    let orders = match &first {
        Decision::SubmitNewOrder { symbol, quantity, limit_price, stop_price, .. } => {
            vec![stop_limit("new", symbol, *quantity, *limit_price, *stop_price)]
        },
        other => panic!("expected a new order, got {:?}", other),
    };
    expect_no_action(&evaluate_position(&config, &p, &orders));

    let mut book = vec![stop_limit("o1", "AAPL", dec(50, 1), dec(140, 1), dec(145, 1))];
    match evaluate_position(&config, &p, &book) {
        Decision::AmendOrder { new_quantity, new_limit_price, new_stop_price, .. } => {
            book[0].amount = Amount::Quantity { quantity: new_quantity };
            book[0].limit_price = Some(new_limit_price);
            book[0].stop_price = Some(new_stop_price);
        },
        other => panic!("expected an amendment, got {:?}", other),
    }
    expect_no_action(&evaluate_position(&config, &p, &book));
}

#[test]
fn gain_exactly_at_minimum_gets_new_order() {
    let p = position("AAPL", dec(5, 100));
    let d = evaluate_position(&GuardConfig::new(), &p, &[]);
    expect_submit(&d, "AAPL", dec(100, 1), dec(15015, 100), dec(15150, 100));
}

#[test]
fn gain_one_basis_point_below_minimum_gets_nothing() {
    let p = position("AAPL", dec(499, 10000));
    expect_no_action(&evaluate_position(&GuardConfig::new(), &p, &[]));
}

#[test]
fn missing_gain_counts_as_zero() {
    let mut p = position("AAPL", dec(6, 100));
    p.unrealized_gain_total_percent = None;
    expect_no_action(&evaluate_position(&GuardConfig::new(), &p, &[]));
}

#[test]
fn small_position_gets_nothing() {
    let p = position("AAPL", dec(6, 100));
    let mut config = GuardConfig::new();
    config.min_value = Some(15901);
    expect_no_action(&evaluate_position(&config, &p, &[]));
    config.min_value = Some(15900);
    let d = evaluate_position(&config, &p, &[]);
    expect_submit(&d, "AAPL", dec(100, 1), dec(15015, 100), dec(15150, 100));
}

#[test]
fn missing_price_counts_as_zero_value() {
    let mut p = position("AAPL", dec(6, 100));
    p.current_price = None;
    let mut config = GuardConfig::new();
    config.min_value = Some(1);
    expect_no_action(&evaluate_position(&config, &p, &[]));
}

#[test]
fn rounding_goes_half_to_even() {
    let mut p = position("XYZ", dec(6, 100));
    p.average_entry_price = dec(1245, 1000);
    let mut config = GuardConfig::new();
    config.limit_markup_bps = 0;
    config.stop_markup_bps = 0;
    let d = evaluate_position(&config, &p, &[]);
    expect_submit(&d, "XYZ", dec(100, 1), dec(124, 100), dec(124, 100));

    p.average_entry_price = dec(1255, 1000);
    let d = evaluate_position(&config, &p, &[]);
    expect_submit(&d, "XYZ", dec(100, 1), dec(126, 100), dec(126, 100));

    p.average_entry_price = dec(1, 3);
    config.stop_markup_bps = 100;
    let d = evaluate_position(&config, &p, &[]);
    expect_submit(&d, "XYZ", dec(100, 1), dec(33, 100), dec(34, 100));
}

#[test]
fn two_protective_orders_are_rejected() {
    let p = position("AAPL", dec(6, 100));
    let orders = vec![
        stop_limit("o1", "AAPL", dec(100, 1), dec(15015, 100), dec(15150, 100)),
        stop_limit("o2", "AAPL", dec(50, 1), dec(140, 1), dec(145, 1)),
    ];
    expect_rejected(&evaluate_position(&GuardConfig::new(), &p, &orders), Reason::MultipleStopOrders);
}

#[test]
fn unrelated_orders_do_not_protect() {
    let p = position("AAPL", dec(6, 100));
    let mut buy = stop_limit("o1", "AAPL", dec(100, 1), dec(1, 1), dec(1, 1));
    buy.side = OrderSide::Buy;
    let other = stop_limit("o2", "MSFT", dec(100, 1), dec(1, 1), dec(1, 1));
    let mut limit_only = stop_limit("o3", "AAPL", dec(100, 1), dec(1, 1), dec(1, 1));
    limit_only.stop_price = None;
    let orders = vec![buy, other, limit_only];
    assert!(protective_orders(&p, &orders).is_empty());
    let d = evaluate_position(&GuardConfig::new(), &p, &orders);
    expect_submit(&d, "AAPL", dec(100, 1), dec(15015, 100), dec(15150, 100));
}

#[test]
fn matcher_lists_candidates_in_order() {
    let p = position("AAPL", dec(6, 100));
    let orders = vec![
        stop_limit("o1", "AAPL", dec(100, 1), dec(1, 1), dec(1, 1)),
        stop_limit("o2", "MSFT", dec(100, 1), dec(1, 1), dec(1, 1)),
        stop_limit("o3", "AAPL", dec(100, 1), dec(1, 1), dec(1, 1)),
    ];
    assert_eq!(protective_orders(&p, &orders), vec![0, 2]);
}

#[test]
fn notional_order_is_rejected() {
    let p = position("AAPL", dec(6, 100));
    let mut order = stop_limit("o1", "AAPL", dec(100, 1), dec(15015, 100), dec(15150, 100));
    order.amount = Amount::Notional { notional: dec(15000, 1) };
    expect_rejected(&evaluate_position(&GuardConfig::new(), &p, &[order]), Reason::NotionalUnsupported);
}

#[test]
fn short_position_amendment_is_rejected() {
    let mut p = position("AAPL", dec(6, 100));
    p.side = PositionSide::Short;
    let mut order = stop_limit("o1", "AAPL", dec(100, 1), dec(140, 1), dec(145, 1));
    order.side = OrderSide::Buy;
    expect_rejected(&evaluate_position(&GuardConfig::new(), &p, &[order]), Reason::OnlyLongSupported);
}

#[test]
fn filter_selects_positions_and_keeps_going_after_rejections() {
    let a = position("AAPL", dec(6, 100));
    let m = position("MSFT", dec(6, 100));
    let t = position("TSLA", dec(1, 100));
    let orders = vec![
        stop_limit("o1", "MSFT", dec(100, 1), dec(1, 1), dec(1, 1)),
        stop_limit("o2", "MSFT", dec(100, 1), dec(1, 1), dec(1, 1)),
    ];
    let positions = vec![a, m, t];
    let all = evaluate_positions_and_orders(&GuardConfig::new(), &positions, &orders);
    assert_eq!(all.len(), 3);
    assert_eq!(all[0].0, "AAPL");
    expect_submit(&all[0].1, "AAPL", dec(100, 1), dec(15015, 100), dec(15150, 100));
    assert_eq!(all[1].0, "MSFT");
    expect_rejected(&all[1].1, Reason::MultipleStopOrders);
    assert_eq!(all[2].0, "TSLA");
    expect_no_action(&all[2].1);

    let mut config = GuardConfig::new();
    config.symbols = Some(vec!["TSLA".to_string(), "MSFT".to_string()]);
    let some = evaluate_positions_and_orders(&config, &positions, &orders);
    assert_eq!(some.len(), 2);
    assert_eq!(some[0].0, "MSFT");
    assert_eq!(some[1].0, "TSLA");
}

#[test]
fn commands_carry_out_decisions() {
    let p = position("AAPL", dec(6, 100));
    let d = evaluate_position(&GuardConfig::new(), &p, &[]);
    assert_eq!(
        command("apcacli", "AAPL", &d).unwrap(),
        "AAPL:\napcacli order submit sell AAPL --quantity 100 --limit-price 150.15 --stop-price 151.5"
    );
    let orders = vec![stop_limit("o1", "AAPL", dec(50, 1), dec(140, 1), dec(145, 1))];
    let d = evaluate_position(&GuardConfig::new(), &p, &orders);
    assert_eq!(
        command("cli", "AAPL", &d).unwrap(),
        "AAPL:\ncli order change o1 --quantity 100 --limit-price 150.15 --stop-price 151.5"
    );
    assert!(command("cli", "AAPL", &Decision::NoActionNeeded).is_none());
    let rejected = Decision::Rejected { reason: Reason::MultipleStopOrders };
    assert!(command("cli", "AAPL", &rejected).is_none());
}

#[test]
fn decimals_out_of_range_are_refused() {
    assert!(Decimal::new(1, 0).is_none());
    assert!(Decimal::new(1, -1).is_none());
    assert!(Decimal::new(1_000_000_000_000_000_001, 1).is_none());
    assert!(Decimal::new(3, 2).unwrap().equals(&dec(15, 10)));
    assert!(dec(1, 3).lt(&dec(1, 2)));
}

#[test]
fn empty_filter_selects_every_position() {
    let positions = vec![position("AAPL", dec(6, 100)), position("MSFT", dec(1, 100))];
    let mut config = GuardConfig::new();
    config.symbols = Some(Vec::new());
    let all = evaluate_positions_and_orders(&config, &positions, &[]);
    assert_eq!(all.len(), 2);
    assert_eq!(all[0].0, "AAPL");
    expect_submit(&all[0].1, "AAPL", dec(100, 1), dec(15015, 100), dec(15150, 100));
    assert_eq!(all[1].0, "MSFT");
    expect_no_action(&all[1].1);
}

#[test]
fn order_type_follows_prices() {
    let p = Some(dec(1, 1));
    assert_eq!(determine_order_type(&p, &p), Type::StopLimit);
    assert_eq!(determine_order_type(&p, &None), Type::Limit);
    assert_eq!(determine_order_type(&None, &p), Type::Stop);
    assert_eq!(determine_order_type(&None, &None), Type::Market);
}

#[test]
fn command_prints_at_most_eight_places() {
    let mut p = position("AAPL", dec(6, 100));
    p.quantity = dec(1, 3);
    let d = evaluate_position(&GuardConfig::new(), &p, &[]);
    assert_eq!(
        command("cli", "AAPL", &d).unwrap(),
        "AAPL:\ncli order submit sell AAPL --quantity 0.33333333 --limit-price 150.15 --stop-price 151.5"
    );
    let d = Decision::SubmitNewOrder {
        symbol: "X".to_string(),
        side: OrderSide::Sell,
        quantity: dec(-5, 2),
        limit_price: dec(2, 3),
        stop_price: dec(-1, 1_000_000_000),
    };
    assert_eq!(
        command("cli", "X", &d).unwrap(),
        "X:\ncli order submit sell X --quantity -2.5 --limit-price 0.66666667 --stop-price -0"
    );
}
