//! Keeping stop-loss orders in line with the positions they protect.
//!
//! For each position the matcher finds the orders that protect it, and the
//! evaluator decides whether to leave them alone, amend the one there is,
//! or submit a new one.
use vstd::prelude::*;

use vstd::arithmetic::div_mod::lemma_fundamental_div_mod;

use crate::decimal::below_cents;
use crate::decimal::decimal_text;
use crate::decimal::decimal_text_of;
use crate::decimal::floor_div;
use crate::decimal::lemma_floor_below;
use crate::decimal::lemma_round_bound;
use crate::decimal::lemma_product_bound;
use crate::decimal::pow10;
use crate::decimal::round_half_even;
use crate::decimal::round_units;
use crate::decimal::Decimal;
use crate::decimal::LIMIT;
use crate::decimal::ROUND_LIMIT;
use crate::order::Amount;
use crate::order::Order;
use crate::order::Side as OrderSide;
use crate::order::TimeInForce;
use crate::position::Position;
use crate::position::Side as PositionSide;

verus! {

/// The markup of the limit price over the entry price, in basis points.
pub const LIMIT_ORDER_MARKUP: u64 = 10;

/// The markup of the stop price over the entry price, in basis points.
pub const STOP_ORDER_MARKUP: u64 = 100;

/// The gain, in percent, that a position needs before a new stop-loss
/// order is created for it.
pub const MIN_GAIN_PERCENT: u64 = 5;

/// What the evaluator works with.
#[derive(Clone, Debug)]
pub struct GuardConfig {
    /// Basis points added to the entry price for the limit price.
    pub limit_markup_bps: u64,
    /// Basis points added to the entry price for the stop price.
    pub stop_markup_bps: u64,
    /// The total gain, in percent, below which no new order is created.
    pub min_gain_percent: u64,
    /// The market value below which no new order is created.
    pub min_value: Option<u64>,
    /// The symbols of the positions to look at; all of them where absent
    /// or empty.
    pub symbols: Option<Vec<String>>,
}

impl GuardConfig {
    /// The configuration with every option at its default.
    pub fn new() -> (r: GuardConfig)
        ensures
            r.limit_markup_bps == LIMIT_ORDER_MARKUP,
            r.stop_markup_bps == STOP_ORDER_MARKUP,
            r.min_gain_percent == MIN_GAIN_PERCENT,
            r.min_value.is_none(),
            r.symbols.is_none(),
    {
        GuardConfig {
            limit_markup_bps: LIMIT_ORDER_MARKUP,
            stop_markup_bps: STOP_ORDER_MARKUP,
            min_gain_percent: MIN_GAIN_PERCENT,
            min_value: None,
            symbols: None,
        }
    }
}

/// Why a position could not be evaluated.
#[derive(Clone, Copy, Debug, PartialEq, Eq, Structural)]
pub enum Reason {
    /// More than one order protects the position.
    MultipleStopOrders,
    /// The protecting order expires before it is canceled.
    NotUntilCanceled,
    /// The protecting order is sized by value.
    NotionalUnsupported,
    /// The protecting order would have to buy.
    OnlyLongSupported,
}

/// The message that goes with each reason.
pub open spec fn reason_text(reason: Reason) -> Seq<char> {
    match reason {
        Reason::MultipleStopOrders => "found multiple stop-loss orders"@,
        Reason::NotUntilCanceled => "opposing order is not valid-until-canceled"@,
        Reason::NotionalUnsupported => "notional orders are currently unsupported"@,
        Reason::OnlyLongSupported => "only long positions are currently supported"@,
    }
}

impl Reason {
    /// The message for this reason.
    pub fn message(&self) -> (r: String)
        ensures
            r@ == reason_text(*self),
    {
        match self {
            Reason::MultipleStopOrders => String::from_str("found multiple stop-loss orders"),
            Reason::NotUntilCanceled => String::from_str(
                "opposing order is not valid-until-canceled",
            ),
            Reason::NotionalUnsupported => String::from_str(
                "notional orders are currently unsupported",
            ),
            Reason::OnlyLongSupported => String::from_str(
                "only long positions are currently supported",
            ),
        }
    }
}

/// What to do about one position.
#[derive(Clone, Debug)]
pub enum Decision {
    /// The position is protected well enough, or needs no protection yet.
    NoActionNeeded,
    /// Change the order that protects the position.
    AmendOrder {
        order_id: String,
        new_quantity: Decimal,
        new_limit_price: Decimal,
        new_stop_price: Decimal,
    },
    /// Protect the position with a new stop-limit order.
    SubmitNewOrder {
        symbol: String,
        side: OrderSide,
        quantity: Decimal,
        limit_price: Decimal,
        stop_price: Decimal,
    },
    /// The position cannot be evaluated.
    Rejected { reason: Reason },
}

/// A decision, with its text as sequences of characters.
pub enum DecisionView {
    NoActionNeeded,
    AmendOrder {
        order_id: Seq<char>,
        new_quantity: Decimal,
        new_limit_price: Decimal,
        new_stop_price: Decimal,
    },
    SubmitNewOrder {
        symbol: Seq<char>,
        side: OrderSide,
        quantity: Decimal,
        limit_price: Decimal,
        stop_price: Decimal,
    },
    Rejected { reason: Reason },
}

impl View for Decision {
    type V = DecisionView;

    open spec fn view(&self) -> DecisionView {
        match self {
            Decision::NoActionNeeded => DecisionView::NoActionNeeded,
            Decision::AmendOrder { order_id, new_quantity, new_limit_price, new_stop_price } =>
                DecisionView::AmendOrder {
                order_id: order_id@,
                new_quantity: *new_quantity,
                new_limit_price: *new_limit_price,
                new_stop_price: *new_stop_price,
            },
            Decision::SubmitNewOrder { symbol, side, quantity, limit_price, stop_price } =>
                DecisionView::SubmitNewOrder {
                symbol: symbol@,
                side: *side,
                quantity: *quantity,
                limit_price: *limit_price,
                stop_price: *stop_price,
            },
            Decision::Rejected { reason } => DecisionView::Rejected { reason: *reason },
        }
    }
}

/// The order's side is the one that closes the position.
pub open spec fn opposing(position: PositionSide, order: OrderSide) -> bool {
    (position == PositionSide::Long && order == OrderSide::Sell) || (position == PositionSide::Short
        && order == OrderSide::Buy)
}

/// The order protects the position: same symbol, opposing side, and a stop
/// price.
pub open spec fn is_candidate(position: Position, order: Order) -> bool {
    &&& order.symbol@ == position.symbol@
    &&& opposing(position.side, order.side)
    &&& order.stop_price.is_some()
}

/// The indices, in increasing order, of the orders that protect the
/// position.
pub open spec fn candidates(position: Position, orders: Seq<Order>) -> Seq<int>
    decreases orders.len(),
{
    if orders.len() == 0 {
        Seq::empty()
    } else {
        let earlier = candidates(position, orders.drop_last());
        if is_candidate(position, orders.last()) {
            earlier.push(orders.len() - 1)
        } else {
            earlier
        }
    }
}

/// Every index of `candidates` is an index of `orders`, of an order that
/// protects the position.
pub proof fn lemma_candidates_in_range(position: Position, orders: Seq<Order>)
    ensures
        forall|j: int|
            0 <= j < candidates(position, orders).len() ==> 0 <= #[trigger] candidates(
                position,
                orders,
            )[j] < orders.len() && is_candidate(position, orders[candidates(position, orders)[j]]),
    decreases orders.len(),
{
    if orders.len() > 0 {
        let earlier = candidates(position, orders.drop_last());
        lemma_candidates_in_range(position, orders.drop_last());
        assert forall|j: int| 0 <= j < candidates(position, orders).len() implies 0
            <= #[trigger] candidates(position, orders)[j] < orders.len() && is_candidate(
            position,
            orders[candidates(position, orders)[j]],
        ) by {
            if j < earlier.len() {
                assert(0 <= earlier[j] < orders.len() - 1);
                assert(orders.drop_last()[earlier[j]] == orders[earlier[j]]);
            }
        }
    }
}

/// The price `price` marked up by `bps` basis points and rounded to cents,
/// counted in cents.
pub open spec fn desired_cents(price: Decimal, bps: u64) -> int {
    round_half_even(price.numer * (10000 + bps) * 100, price.denom * 10000)
}

/// The price of `cents` cents.
pub open spec fn cents_price(cents: int) -> Decimal {
    Decimal { numer: cents as i128, denom: 100 }
}

/// The decimal, or zero where there is none.
pub open spec fn or_zero(d: Option<Decimal>) -> Decimal {
    match d {
        Some(x) => x,
        None => Decimal { numer: 0, denom: 1 },
    }
}

/// The position's total gain, in percent, is below `min_gain_percent`.
pub open spec fn gain_below(position: Position, min_gain_percent: u64) -> bool {
    let gain = or_zero(position.unrealized_gain_total_percent);
    gain.numer * 100 < min_gain_percent * gain.denom
}

/// The position's market value is below `min_value`.
pub open spec fn value_below(position: Position, min_value: u64) -> bool {
    let price = or_zero(position.current_price);
    position.quantity.numer * price.numer < min_value * (position.quantity.denom * price.denom)
}

/// The decision for a position that the order `order`, and no other,
/// protects.
pub open spec fn decide_protected(position: Position, order: Order, limit: int, stop: int) -> DecisionView {
    if order.time_in_force != TimeInForce::UntilCanceled {
        DecisionView::Rejected { reason: Reason::NotUntilCanceled }
    } else {
        match order.amount {
            Amount::Notional { .. } => DecisionView::Rejected { reason: Reason::NotionalUnsupported },
            Amount::Quantity { quantity } => {
                if !quantity.same_value(position.quantity) || or_zero(order.limit_price).below_cents(
                    limit,
                ) || or_zero(order.stop_price).below_cents(stop) {
                    if order.side != OrderSide::Sell {
                        DecisionView::Rejected { reason: Reason::OnlyLongSupported }
                    } else {
                        DecisionView::AmendOrder {
                            order_id: order.id@,
                            new_quantity: position.quantity,
                            new_limit_price: cents_price(limit),
                            new_stop_price: cents_price(stop),
                        }
                    }
                } else {
                    DecisionView::NoActionNeeded
                }
            },
        }
    }
}

/// The decision for a position that no order protects.
pub open spec fn decide_unprotected(position: Position, config: GuardConfig, limit: int, stop: int) -> DecisionView {
    if gain_below(position, config.min_gain_percent) {
        DecisionView::NoActionNeeded
    } else if config.min_value.is_some() && value_below(position, config.min_value.unwrap()) {
        DecisionView::NoActionNeeded
    } else {
        DecisionView::SubmitNewOrder {
            symbol: position.symbol@,
            side: OrderSide::Sell,
            quantity: position.quantity,
            limit_price: cents_price(limit),
            stop_price: cents_price(stop),
        }
    }
}

/// The decision for `position`, given the open orders.
pub open spec fn decide(position: Position, orders: Seq<Order>, config: GuardConfig) -> DecisionView {
    let limit = desired_cents(position.average_entry_price, config.limit_markup_bps);
    let stop = desired_cents(position.average_entry_price, config.stop_markup_bps);
    let found = candidates(position, orders);
    if found.len() > 1 {
        DecisionView::Rejected { reason: Reason::MultipleStopOrders }
    } else if found.len() == 1 {
        decide_protected(position, orders[found[0]], limit, stop)
    } else {
        decide_unprotected(position, config, limit, stop)
    }
}

/// The configuration asks for `position` to be evaluated: every position
/// where it names no symbols, else those whose symbol it names.
pub open spec fn selected(config: GuardConfig, position: Position) -> bool {
    match config.symbols {
        None => true,
        Some(symbols) => symbols@.len() == 0 || exists|i: int|
            0 <= i < symbols@.len() && (#[trigger] symbols@[i])@ == position.symbol@,
    }
}

/// The symbol and the decision of each position that the configuration
/// selects, in the order of `positions`.
pub open spec fn evaluation(config: GuardConfig, positions: Seq<Position>, orders: Seq<Order>) -> Seq<
    (Seq<char>, DecisionView),
>
    decreases positions.len(),
{
    if positions.len() == 0 {
        Seq::empty()
    } else {
        let earlier = evaluation(config, positions.drop_last(), orders);
        let position = positions.last();
        if selected(config, position) {
            earlier.push((position.symbol@, decide(position, orders, config)))
        } else {
            earlier
        }
    }
}

/// The text of a decimal in a command line.
pub open spec fn price_text(d: Decimal) -> Seq<char> {
    decimal_text_of(d.numer as int, d.denom as int)
}

/// The command line that carries out `decision` for the position in
/// `symbol`, run through the command `cli`; none where nothing is to be
/// done.
pub open spec fn command_text(cli: Seq<char>, symbol: Seq<char>, decision: DecisionView) -> Option<
    Seq<char>,
> {
    match decision {
        DecisionView::AmendOrder { order_id, new_quantity, new_limit_price, new_stop_price } => Some(
            symbol + ":\n"@ + cli + " order change "@ + order_id + " --quantity "@ + price_text(
                new_quantity,
            ) + " --limit-price "@ + price_text(new_limit_price) + " --stop-price "@ + price_text(
                new_stop_price,
            ),
        ),
        DecisionView::SubmitNewOrder { symbol: order_symbol, quantity, limit_price, stop_price, .. } =>
            Some(
            symbol + ":\n"@ + cli + " order submit sell "@ + order_symbol + " --quantity "@
                + price_text(quantity) + " --limit-price "@ + price_text(limit_price)
                + " --stop-price "@ + price_text(stop_price),
        ),
        _ => None,
    }
}

/// Every order of the list is well formed.
pub open spec fn orders_wf(orders: Seq<Order>) -> bool {
    forall|i: int| 0 <= i < orders.len() ==> (#[trigger] orders[i]).wf()
}

/// Check if the given order is opposing the given position.
pub fn opposing_sides(position: &Position, order: &Order) -> (r: bool)
    ensures
        r == opposing(position.side, order.side),
{
    match (position.side, order.side) {
        (PositionSide::Long, OrderSide::Sell) | (PositionSide::Short, OrderSide::Buy) => true,
        _ => false,
    }
}

/// The indices of the orders that protect `position`, in increasing order.
pub fn protective_orders(position: &Position, orders: &[Order]) -> (r: Vec<usize>)
    ensures
        r@.len() == candidates(*position, orders@).len(),
        forall|j: int| 0 <= j < r@.len() ==> r@[j] as int == candidates(*position, orders@)[j],
{
    let mut found: Vec<usize> = Vec::new();
    let mut i: usize = 0;
    while i < orders.len()
        invariant
            i <= orders@.len(),
            found@.len() == candidates(*position, orders@.subrange(0, i as int)).len(),
            forall|j: int|
                0 <= j < found@.len() ==> found@[j] as int == candidates(
                    *position,
                    orders@.subrange(0, i as int),
                )[j],
        decreases orders.len() - i,
    {
        let order = &orders[i];
        proof {
            assert(orders@.subrange(0, i + 1).drop_last() =~= orders@.subrange(0, i as int));
        }
        if order.symbol == position.symbol && opposing_sides(position, order)
            && order.stop_price.is_some() {
            found.push(i);
        }
        i = i + 1;
    }
    proof {
        assert(orders@.subrange(0, i as int) =~= orders@);
    }
    found
}

/// `price` marked up by `markup_bps` basis points, rounded to cents and
/// counted in cents.
pub fn desired_price(price: &Decimal, markup_bps: u64) -> (cents: i128)
    requires
        price.wf(),
    ensures
        cents == desired_cents(*price, markup_bps),
        -ROUND_LIMIT <= cents <= ROUND_LIMIT + 1,
{
    let factor: i128 = 10000 + markup_bps as i128;
    proof {
        lemma_markup_bounds(price.numer as int, price.denom as int, factor as int);
    }
    let scaled = Decimal { numer: price.numer * factor, denom: price.denom * 10000 };
    proof {
        reveal_with_fuel(pow10, 3);
        assert(pow10(2) == 100);
        assert(scaled.numer * pow10(2) == price.numer * (10000 + markup_bps) * 100);
    }
    round_units(&scaled, 2)
}

/// The bounds that make marking up a price safe.
proof fn lemma_markup_bounds(n: int, d: int, factor: int)
    requires
        -LIMIT <= n <= LIMIT,
        0 < d <= LIMIT,
        10000 <= factor <= 10000 + u64::MAX,
    ensures
        -LIMIT * factor <= n * factor <= LIMIT * factor,
        LIMIT * factor <= 20_000_000_000_000_000_000_000_000_000_000_000_000,
        -ROUND_LIMIT * (d * 10000) <= n * factor * 100 <= ROUND_LIMIT * (d * 10000),
        0 < d * 10000 <= 10000 * LIMIT,
{
    assert(-LIMIT * factor <= n * factor <= LIMIT * factor) by (nonlinear_arith)
        requires
            -LIMIT <= n <= LIMIT,
            factor > 0,
    ;
    assert(LIMIT * factor <= LIMIT * (10000 + u64::MAX)) by (nonlinear_arith)
        requires
            factor <= 10000 + u64::MAX,
            LIMIT > 0,
    ;
    assert(ROUND_LIMIT * 10000 <= ROUND_LIMIT * (d * 10000)) by (nonlinear_arith)
        requires
            d >= 1,
            ROUND_LIMIT > 0,
    ;
    assert(-LIMIT * factor * 100 <= n * factor * 100 <= LIMIT * factor * 100) by (nonlinear_arith)
        requires
            -LIMIT * factor <= n * factor <= LIMIT * factor,
    ;
    assert(LIMIT * (10000 + u64::MAX) * 100 <= ROUND_LIMIT * 10000);
    let bound = LIMIT * (10000 + u64::MAX) * 100;
    assert(-ROUND_LIMIT * (d * 10000) <= n * factor * 100 <= ROUND_LIMIT * (d * 10000))
        by (nonlinear_arith)
        requires
            -LIMIT * factor * 100 <= n * factor * 100 <= LIMIT * factor * 100,
            LIMIT * factor <= LIMIT * (10000 + u64::MAX),
            bound == LIMIT * (10000 + u64::MAX) * 100,
            bound <= ROUND_LIMIT * 10000,
            ROUND_LIMIT * 10000 <= ROUND_LIMIT * (d * 10000),
    ;
    assert(0 < d * 10000 <= 10000 * LIMIT) by (nonlinear_arith)
        requires
            0 < d <= LIMIT,
    ;
}

/// Whether the position's total gain, in percent, is below
/// `min_gain_percent`.
fn is_gain_below(position: &Position, min_gain_percent: u64) -> (r: bool)
    requires
        position.wf(),
    ensures
        r == gain_below(*position, min_gain_percent),
{
    let gain = match &position.unrealized_gain_total_percent {
        Some(g) => *g,
        None => Decimal::zero(),
    };
    let bound = min_gain_percent as i128;
    proof {
        assert(bound * gain.denom <= u64::MAX * LIMIT) by (nonlinear_arith)
            requires
                0 <= bound <= u64::MAX,
                0 < gain.denom <= LIMIT,
        ;
        assert(0 <= bound * gain.denom) by (nonlinear_arith)
            requires
                0 <= bound,
                0 < gain.denom,
        ;
    }
    gain.numer * 100 < bound * gain.denom
}

/// Whether the position's market value is below `min_value`.
fn is_value_below(position: &Position, min_value: u64) -> (r: bool)
    requires
        position.wf(),
    ensures
        r == value_below(*position, min_value),
{
    let price = match &position.current_price {
        Some(p) => *p,
        None => Decimal::zero(),
    };
    proof {
        lemma_product_bound(position.quantity.numer as int, price.numer as int);
        lemma_product_bound(position.quantity.denom as int, price.denom as int);
        assert(position.quantity.denom * price.denom > 0) by (nonlinear_arith)
            requires
                position.quantity.denom > 0,
                price.denom > 0,
        ;
    }
    let value = position.quantity.numer * price.numer;
    let scale = position.quantity.denom * price.denom;
    proof {
        lemma_floor_below(value as int, scale as int, min_value as int);
    }
    floor_div(value, scale) < min_value as i128
}

/// Evaluate the provided position against the given list of orders.
pub fn evaluate_position(config: &GuardConfig, position: &Position, orders: &[Order]) -> (r:
    Decision)
    requires
        position.wf(),
        orders_wf(orders@),
    ensures
        r@ == decide(*position, orders@, *config),
{
    let desired_limit = desired_price(&position.average_entry_price, config.limit_markup_bps);
    let desired_stop = desired_price(&position.average_entry_price, config.stop_markup_bps);
    let found = protective_orders(position, orders);
    if found.len() > 1 {
        return Decision::Rejected { reason: Reason::MultipleStopOrders };
    }
    if found.len() == 1 {
        proof {
            lemma_candidates_in_range(*position, orders@);
        }
        let order = &orders[found[0]];
        assert(order.wf());
        if order.time_in_force != TimeInForce::UntilCanceled {
            return Decision::Rejected { reason: Reason::NotUntilCanceled };
        }
        let quantity = match &order.amount {
            Amount::Quantity { quantity } => *quantity,
            Amount::Notional { .. } => {
                return Decision::Rejected { reason: Reason::NotionalUnsupported };
            },
        };
        let limit = match &order.limit_price {
            Some(l) => *l,
            None => Decimal::zero(),
        };
        let stop = match &order.stop_price {
            Some(s) => *s,
            None => Decimal::zero(),
        };
        if !quantity.equals(&position.quantity) || below_cents(&limit, desired_limit)
            || below_cents(&stop, desired_stop) {
            if order.side != OrderSide::Sell {
                return Decision::Rejected { reason: Reason::OnlyLongSupported };
            }
            Decision::AmendOrder {
                order_id: order.id.clone(),
                new_quantity: position.quantity,
                new_limit_price: Decimal::from_cents(desired_limit),
                new_stop_price: Decimal::from_cents(desired_stop),
            }
        } else {
            Decision::NoActionNeeded
        }
    } else {
        if is_gain_below(position, config.min_gain_percent) {
            return Decision::NoActionNeeded;
        }
        if let Some(min_value) = config.min_value {
            if is_value_below(position, min_value) {
                return Decision::NoActionNeeded;
            }
        }
        Decision::SubmitNewOrder {
            symbol: position.symbol.clone(),
            side: OrderSide::Sell,
            quantity: position.quantity,
            limit_price: Decimal::from_cents(desired_limit),
            stop_price: Decimal::from_cents(desired_stop),
        }
    }
}

/// Whether the configuration asks for `position` to be evaluated.
fn is_selected(config: &GuardConfig, position: &Position) -> (r: bool)
    ensures
        r == selected(*config, *position),
{
    match &config.symbols {
        None => true,
        Some(symbols) => {
            if symbols.len() == 0 {
                return true;
            }
            let mut i: usize = 0;
            while i < symbols.len()
                invariant
                    0 < symbols@.len(),
                    i <= symbols@.len(),
                    config.symbols == Some(*symbols),
                    forall|k: int| 0 <= k < i ==> (#[trigger] symbols@[k])@ != position.symbol@,
                decreases symbols.len() - i,
            {
                if symbols[i] == position.symbol {
                    assert(config.symbols.unwrap()@[i as int]@ == position.symbol@);
                    return true;
                }
                i = i + 1;
            }
            false
        },
    }
}

/// Evaluate each position that the configuration selects against the
/// given orders, and pair its symbol with the decision.
///
/// A position that cannot be evaluated gets a `Rejected` decision; the
/// others are evaluated all the same.
pub fn evaluate_positions_and_orders(
    config: &GuardConfig,
    positions: &[Position],
    orders: &[Order],
) -> (r: Vec<(String, Decision)>)
    requires
        forall|i: int| 0 <= i < positions@.len() ==> (#[trigger] positions@[i]).wf(),
        orders_wf(orders@),
    ensures
        r@.len() == evaluation(*config, positions@, orders@).len(),
        forall|j: int|
            0 <= j < r@.len() ==> (#[trigger] r@[j]).0@ == evaluation(
                *config,
                positions@,
                orders@,
            )[j].0 && r@[j].1@ == evaluation(*config, positions@, orders@)[j].1,
{
    let mut result: Vec<(String, Decision)> = Vec::new();
    let mut i: usize = 0;
    while i < positions.len()
        invariant
            i <= positions@.len(),
            forall|k: int| 0 <= k < positions@.len() ==> (#[trigger] positions@[k]).wf(),
            orders_wf(orders@),
            result@.len() == evaluation(*config, positions@.subrange(0, i as int), orders@).len(),
            forall|j: int|
                0 <= j < result@.len() ==> (#[trigger] result@[j]).0@ == evaluation(
                    *config,
                    positions@.subrange(0, i as int),
                    orders@,
                )[j].0 && result@[j].1@ == evaluation(
                    *config,
                    positions@.subrange(0, i as int),
                    orders@,
                )[j].1,
        decreases positions.len() - i,
    {
        let position = &positions[i];
        proof {
            assert(positions@.subrange(0, i + 1).drop_last() =~= positions@.subrange(0, i as int));
            assert(positions@.subrange(0, i + 1).last() == positions@[i as int]);
        }
        if is_selected(config, position) {
            let decision = evaluate_position(config, position, orders);
            result.push((position.symbol.clone(), decision));
        }
        i = i + 1;
    }
    proof {
        assert(positions@.subrange(0, i as int) =~= positions@);
    }
    result
}

/// Append the text of `d` to `s`.
fn push_price(s: &mut String, d: &Decimal)
    requires
        d.denom > 0,
    ensures
        final(s)@ == old(s)@ + price_text(*d),
{
    let text = decimal_text(d);
    s.append(text.as_str());
}

/// The command line that carries out `decision` for the position in
/// `symbol`, run through the command `cli`; `None` where nothing is to be
/// done.
pub fn command(cli: &str, symbol: &str, decision: &Decision) -> (r: Option<String>)
    requires
        decision is AmendOrder ==> decision->new_quantity.denom > 0
            && decision->new_limit_price.denom > 0 && decision->new_stop_price.denom > 0,
        decision is SubmitNewOrder ==> decision->quantity.denom > 0
            && decision->SubmitNewOrder_limit_price.denom > 0
            && decision->SubmitNewOrder_stop_price.denom > 0,
    ensures
        r.is_some() == command_text(cli@, symbol@, decision@).is_some(),
        r.is_some() ==> r.unwrap()@ == command_text(cli@, symbol@, decision@).unwrap(),
{
    match decision {
        Decision::AmendOrder { order_id, new_quantity, new_limit_price, new_stop_price } => {
            let mut s = String::from_str(symbol);
            s.append(":\n");
            s.append(cli);
            s.append(" order change ");
            s.append(order_id.as_str());
            s.append(" --quantity ");
            push_price(&mut s, new_quantity);
            s.append(" --limit-price ");
            push_price(&mut s, new_limit_price);
            s.append(" --stop-price ");
            push_price(&mut s, new_stop_price);
            Some(s)
        },
        Decision::SubmitNewOrder { symbol: order_symbol, quantity, limit_price, stop_price, .. } => {
            let mut s = String::from_str(symbol);
            s.append(":\n");
            s.append(cli);
            s.append(" order submit sell ");
            s.append(order_symbol.as_str());
            s.append(" --quantity ");
            push_price(&mut s, quantity);
            s.append(" --limit-price ");
            push_price(&mut s, limit_price);
            s.append(" --stop-price ");
            push_price(&mut s, stop_price);
            Some(s)
        },
        _ => None,
    }
}

} // verus!

verus! {

/// `order` with its amount, limit price and stop price replaced.
pub open spec fn amended(order: Order, quantity: Decimal, limit: Decimal, stop: Decimal) -> Order {
    Order {
        id: order.id,
        symbol: order.symbol,
        side: order.side,
        amount: Amount::Quantity { quantity },
        limit_price: Some(limit),
        stop_price: Some(stop),
        time_in_force: order.time_in_force,
    }
}

/// The open orders once the action that `decision` calls for on `position`
/// is carried out: the order that protects the position is amended, or a
/// new order with the identifier `new_id` joins the book.
pub open spec fn after_action(
    position: Position,
    orders: Seq<Order>,
    decision: DecisionView,
    new_id: String,
) -> Seq<Order> {
    match decision {
        DecisionView::AmendOrder { new_quantity, new_limit_price, new_stop_price, .. } => {
            let k = candidates(position, orders)[0];
            orders.update(k, amended(orders[k], new_quantity, new_limit_price, new_stop_price))
        },
        DecisionView::SubmitNewOrder { side, quantity, limit_price, stop_price, .. } => orders.push(
            Order {
                id: new_id,
                symbol: position.symbol,
                side,
                amount: Amount::Quantity { quantity },
                limit_price: Some(limit_price),
                stop_price: Some(stop_price),
                time_in_force: TimeInForce::UntilCanceled,
            },
        ),
        _ => orders,
    }
}

/// Replacing an order by one that protects the position just as much
/// leaves the candidates as they are.
pub proof fn lemma_candidates_update(position: Position, orders: Seq<Order>, k: int, order: Order)
    requires
        0 <= k < orders.len(),
        is_candidate(position, orders[k]) == is_candidate(position, order),
    ensures
        candidates(position, orders.update(k, order)) == candidates(position, orders),
    decreases orders.len(),
{
    let updated = orders.update(k, order);
    if k < orders.len() - 1 {
        assert(updated.drop_last() =~= orders.drop_last().update(k, order));
        lemma_candidates_update(position, orders.drop_last(), k, order);
    } else {
        assert(updated.drop_last() =~= orders.drop_last());
    }
}

/// Adding an order adds its index to the candidates where it protects the
/// position.
pub proof fn lemma_candidates_push(position: Position, orders: Seq<Order>, order: Order)
    ensures
        candidates(position, orders.push(order)) == if is_candidate(position, order) {
            candidates(position, orders).push(orders.len() as int)
        } else {
            candidates(position, orders)
        },
{
    assert(orders.push(order).drop_last() =~= orders);
}

/// The desired prices of a well-formed position fit the decimal type.
pub proof fn lemma_desired_in_range(price: Decimal, bps: u64)
    requires
        price.wf(),
    ensures
        -ROUND_LIMIT <= desired_cents(price, bps) <= ROUND_LIMIT + 1,
        cents_price(desired_cents(price, bps)).numer == desired_cents(price, bps),
{
    let factor = 10000 + bps;
    lemma_markup_bounds(price.numer as int, price.denom as int, factor);
    lemma_round_bound(price.numer * factor * 100, price.denom * 10000, ROUND_LIMIT as int);
}

/// Evaluating a position again, once the action that the first evaluation
/// called for has been carried out on the order book, asks for nothing more
/// or for the very same thing.
pub proof fn lemma_evaluate_idempotent(
    position: Position,
    orders: Seq<Order>,
    config: GuardConfig,
    new_id: String,
)
    requires
        position.wf(),
    ensures
        ({
            let first = decide(position, orders, config);
            let again = decide(position, after_action(position, orders, first, new_id), config);
            again == DecisionView::NoActionNeeded || again == first
        }),
{
    let limit = desired_cents(position.average_entry_price, config.limit_markup_bps);
    let stop = desired_cents(position.average_entry_price, config.stop_markup_bps);
    lemma_desired_in_range(position.average_entry_price, config.limit_markup_bps);
    lemma_desired_in_range(position.average_entry_price, config.stop_markup_bps);
    let first = decide(position, orders, config);
    let found = candidates(position, orders);
    match first {
        DecisionView::AmendOrder { new_quantity, new_limit_price, new_stop_price, .. } => {
            lemma_candidates_in_range(position, orders);
            let k = found[0];
            let order = amended(orders[k], new_quantity, new_limit_price, new_stop_price);
            lemma_candidates_update(position, orders, k, order);
            let book = orders.update(k, order);
            assert(book[k] == order);
            assert(decide(position, book, config) == DecisionView::NoActionNeeded);
        },
        DecisionView::SubmitNewOrder { side, quantity, limit_price, stop_price, .. } => {
            let order = Order {
                id: new_id,
                symbol: position.symbol,
                side,
                amount: Amount::Quantity { quantity },
                limit_price: Some(limit_price),
                stop_price: Some(stop_price),
                time_in_force: TimeInForce::UntilCanceled,
            };
            lemma_candidates_push(position, orders, order);
            let book = orders.push(order);
            if is_candidate(position, order) {
                assert(candidates(position, book) =~= seq![orders.len() as int]);
                assert(book[orders.len() as int] == order);
                assert(decide(position, book, config) == DecisionView::NoActionNeeded);
            } else {
                assert(decide(position, book, config) == first);
            }
        },
        _ => {},
    }
}

/// Rounding to the nearest integer keeps the order of the values.
pub proof fn lemma_round_monotone(m1: int, m2: int, d: int)
    requires
        d > 0,
        m1 <= m2,
    ensures
        round_half_even(m1, d) <= round_half_even(m2, d),
{
    lemma_fundamental_div_mod(m1, d);
    lemma_fundamental_div_mod(m2, d);
    let q1 = m1 / d;
    let q2 = m2 / d;
    assert(q1 <= q2) by (nonlinear_arith)
        requires
            m1 == d * q1 + m1 % d,
            m2 == d * q2 + m2 % d,
            0 <= m1 % d < d,
            0 <= m2 % d < d,
            m1 <= m2,
            d > 0,
    ;
    if q1 == q2 {
        assert(m1 % d <= m2 % d);
    }
}

/// A larger markup never asks for a lower price, where the entry price is
/// not negative.
pub proof fn lemma_desired_monotone(price: Decimal, lower: u64, higher: u64)
    requires
        price.numer >= 0,
        price.denom > 0,
        lower <= higher,
    ensures
        desired_cents(price, lower) <= desired_cents(price, higher),
{
    assert(price.numer * (10000 + lower) * 100 <= price.numer * (10000 + higher) * 100)
        by (nonlinear_arith)
        requires
            price.numer >= 0,
            lower <= higher,
    ;
    assert(price.denom * 10000 > 0);
    lemma_round_monotone(
        price.numer * (10000 + lower) * 100,
        price.numer * (10000 + higher) * 100,
        price.denom * 10000,
    );
}

/// The one order that protects a position, valid until canceled, for the
/// position's quantity, and with limit and stop prices at least the desired
/// ones, is left alone.
pub proof fn lemma_protection_kept(position: Position, orders: Seq<Order>, config: GuardConfig)
    requires
        candidates(position, orders).len() == 1,
        ({
            let order = orders[candidates(position, orders)[0]];
            &&& order.time_in_force == TimeInForce::UntilCanceled
            &&& order.amount is Quantity
            &&& order.amount->quantity.same_value(position.quantity)
            &&& !or_zero(order.limit_price).below_cents(
                desired_cents(position.average_entry_price, config.limit_markup_bps),
            )
            &&& !or_zero(order.stop_price).below_cents(
                desired_cents(position.average_entry_price, config.stop_markup_bps),
            )
        }),
    ensures
        decide(position, orders, config) == DecisionView::NoActionNeeded,
{
}

/// An order that a configuration leaves alone stays alone under markups
/// that are no larger, where the entry price is not negative.
pub proof fn lemma_lower_markups_keep_protection(
    position: Position,
    orders: Seq<Order>,
    config: GuardConfig,
    lower: GuardConfig,
)
    requires
        position.wf(),
        orders_wf(orders),
        position.average_entry_price.numer >= 0,
        lower.limit_markup_bps <= config.limit_markup_bps,
        lower.stop_markup_bps <= config.stop_markup_bps,
        candidates(position, orders).len() == 1,
        ({
            let order = orders[candidates(position, orders)[0]];
            &&& order.time_in_force == TimeInForce::UntilCanceled
            &&& order.amount is Quantity
            &&& order.amount->quantity.same_value(position.quantity)
            &&& !or_zero(order.limit_price).below_cents(
                desired_cents(position.average_entry_price, config.limit_markup_bps),
            )
            &&& !or_zero(order.stop_price).below_cents(
                desired_cents(position.average_entry_price, config.stop_markup_bps),
            )
        }),
    ensures
        decide(position, orders, lower) == DecisionView::NoActionNeeded,
{
    let price = position.average_entry_price;
    let order = orders[candidates(position, orders)[0]];
    let limit = or_zero(order.limit_price);
    let stop = or_zero(order.stop_price);
    lemma_desired_monotone(price, lower.limit_markup_bps, config.limit_markup_bps);
    lemma_desired_monotone(price, lower.stop_markup_bps, config.stop_markup_bps);
    lemma_candidates_in_range(position, orders);
    assert(order.wf());
    lemma_cents_antitone(
        limit,
        desired_cents(price, lower.limit_markup_bps),
        desired_cents(price, config.limit_markup_bps),
    );
    lemma_cents_antitone(
        stop,
        desired_cents(price, lower.stop_markup_bps),
        desired_cents(price, config.stop_markup_bps),
    );
    lemma_protection_kept(position, orders, lower);
}

/// A value that is not below a number of cents is not below a smaller one.
pub proof fn lemma_cents_antitone(x: Decimal, lower: int, higher: int)
    requires
        lower <= higher,
        x.denom >= 0,
        !x.below_cents(higher),
    ensures
        !x.below_cents(lower),
{
    assert(lower * x.denom <= higher * x.denom) by (nonlinear_arith)
        requires
            lower <= higher,
            x.denom >= 0,
    ;
}

/// A position that nothing protects gets a new order once its gain reaches
/// the minimum exactly, and none at one basis point below it.
pub proof fn lemma_threshold_gating(position: Position, orders: Seq<Order>, config: GuardConfig)
    requires
        position.wf(),
        candidates(position, orders).len() == 0,
        config.min_value.is_none() || !value_below(position, config.min_value.unwrap()),
    ensures
        ({
            let gain = or_zero(position.unrealized_gain_total_percent);
            gain.numer * 100 == config.min_gain_percent * gain.denom ==> decide(
                position,
                orders,
                config,
            ) is SubmitNewOrder
        }),
        ({
            let gain = or_zero(position.unrealized_gain_total_percent);
            gain.numer * 10000 == (config.min_gain_percent * 100 - 1) * gain.denom ==> decide(
                position,
                orders,
                config,
            ) == DecisionView::NoActionNeeded
        }),
{
    let gain = or_zero(position.unrealized_gain_total_percent);
    assert(gain.denom > 0);
    if gain.numer * 10000 == (config.min_gain_percent * 100 - 1) * gain.denom {
        assert(gain.numer * 100 < config.min_gain_percent * gain.denom) by (nonlinear_arith)
            requires
                gain.numer * 10000 == (config.min_gain_percent * 100 - 1) * gain.denom,
                gain.denom > 0,
        ;
    }
}

/// The desired prices go out rounded to whole cents: a denominator of 100
/// over the rounded number of cents.
pub proof fn lemma_prices_in_cents(position: Position, orders: Seq<Order>, config: GuardConfig)
    ensures
        ({
            let limit = desired_cents(position.average_entry_price, config.limit_markup_bps);
            let stop = desired_cents(position.average_entry_price, config.stop_markup_bps);
            match decide(position, orders, config) {
                DecisionView::AmendOrder { new_limit_price, new_stop_price, .. } =>
                    new_limit_price == cents_price(limit) && new_stop_price == cents_price(stop),
                DecisionView::SubmitNewOrder { limit_price, stop_price, .. } => limit_price
                    == cents_price(limit) && stop_price == cents_price(stop),
                _ => true,
            }
        }),
{
}

/// A position that two or more orders protect is rejected, whatever they
/// hold.
pub proof fn lemma_multiple_rejected(position: Position, orders: Seq<Order>, config: GuardConfig)
    requires
        candidates(position, orders).len() >= 2,
    ensures
        decide(position, orders, config) == (DecisionView::Rejected {
            reason: Reason::MultipleStopOrders,
        }),
{
}

} // verus!

verus! {

/// The action for one position leaves the decision for a position of
/// another symbol as it was.
pub proof fn lemma_unrelated_action(
    position: Position,
    other: Position,
    book: Seq<Order>,
    config: GuardConfig,
    new_id: String,
)
    requires
        position.symbol@ != other.symbol@,
    ensures
        decide(position, after_action(other, book, decide(other, book, config), new_id), config)
            == decide(position, book, config),
{
    let found = candidates(position, book);
    lemma_candidates_in_range(position, book);
    lemma_candidates_in_range(other, book);
    match decide(other, book, config) {
        DecisionView::AmendOrder { new_quantity, new_limit_price, new_stop_price, .. } => {
            let k = candidates(other, book)[0];
            let order = amended(book[k], new_quantity, new_limit_price, new_stop_price);
            lemma_candidates_update(position, book, k, order);
            let changed = book.update(k, order);
            if found.len() == 1 {
                assert(found[0] != k);
                assert(changed[found[0]] == book[found[0]]);
            }
        },
        DecisionView::SubmitNewOrder { side, quantity, limit_price, stop_price, .. } => {
            let order = Order {
                id: new_id,
                symbol: other.symbol,
                side,
                amount: Amount::Quantity { quantity },
                limit_price: Some(limit_price),
                stop_price: Some(stop_price),
                time_in_force: TimeInForce::UntilCanceled,
            };
            lemma_candidates_push(position, book, order);
            let changed = book.push(order);
            if found.len() == 1 {
                assert(changed[found[0]] == book[found[0]]);
            }
        },
        _ => {},
    }
}

/// The open orders once the action for each selected position of
/// `positions` has been carried out, one after the other; the new order
/// for the position at index `i`, if any, gets the identifier `new_ids[i]`.
pub open spec fn book_after(
    config: GuardConfig,
    positions: Seq<Position>,
    orders: Seq<Order>,
    new_ids: Seq<String>,
) -> Seq<Order>
    decreases positions.len(),
{
    if positions.len() == 0 {
        orders
    } else {
        let earlier = book_after(config, positions.drop_last(), orders, new_ids);
        let position = positions.last();
        if selected(config, position) {
            after_action(
                position,
                earlier,
                decide(position, orders, config),
                new_ids[positions.len() - 1],
            )
        } else {
            earlier
        }
    }
}

/// No two positions share a symbol.
pub open spec fn unique_symbols(positions: Seq<Position>) -> bool {
    forall|i: int, j: int|
        0 <= i < j < positions.len() ==> (#[trigger] positions[i]).symbol@ != (
        #[trigger] positions[j]).symbol@
}

/// While the actions are carried out one after the other, a position whose
/// symbol is not among those acted on keeps its decision, and one that was
/// acted on asks for nothing more or for the same again.
proof fn lemma_book_after(
    config: GuardConfig,
    positions: Seq<Position>,
    orders: Seq<Order>,
    new_ids: Seq<String>,
)
    requires
        forall|i: int| 0 <= i < positions.len() ==> (#[trigger] positions[i]).wf(),
        unique_symbols(positions),
    ensures
        forall|p: Position|
            (forall|i: int| 0 <= i < positions.len() ==> (#[trigger] positions[i]).symbol@ != p.symbol@)
                ==> #[trigger] decide(p, book_after(config, positions, orders, new_ids), config)
                == decide(p, orders, config),
        forall|i: int|
            0 <= i < positions.len() && selected(config, positions[i]) ==> {
                let again = decide(
                    positions[i],
                    book_after(config, positions, orders, new_ids),
                    config,
                );
                again == DecisionView::NoActionNeeded || again == decide(
                    positions[i],
                    orders,
                    config,
                )
            },
    decreases positions.len(),
{
    if positions.len() > 0 {
        let n = positions.len() - 1;
        let earlier_positions = positions.drop_last();
        assert forall|i: int, j: int|
            0 <= i < j < earlier_positions.len() implies (#[trigger] earlier_positions[i]).symbol@
            != (#[trigger] earlier_positions[j]).symbol@ by {
            assert(earlier_positions[i] == positions[i]);
            assert(earlier_positions[j] == positions[j]);
        }
        lemma_book_after(config, earlier_positions, orders, new_ids);
        let earlier = book_after(config, earlier_positions, orders, new_ids);
        let last = positions[n];
        let book = book_after(config, positions, orders, new_ids);
        if selected(config, last) {
            assert forall|i: int| 0 <= i < earlier_positions.len() implies (
            #[trigger] earlier_positions[i]).symbol@ != last.symbol@ by {
                assert(earlier_positions[i] == positions[i]);
            }
            assert(decide(last, earlier, config) == decide(last, orders, config));
            let d = decide(last, orders, config);
            assert forall|p: Position|
                (forall|i: int|
                    0 <= i < positions.len() ==> (#[trigger] positions[i]).symbol@
                        != p.symbol@) implies #[trigger] decide(p, book, config) == decide(
                p,
                orders,
                config,
            ) by {
                assert(positions[n].symbol@ != p.symbol@);
                assert forall|i: int| 0 <= i < earlier_positions.len() implies (
                #[trigger] earlier_positions[i]).symbol@ != p.symbol@ by {
                    assert(earlier_positions[i] == positions[i]);
                    assert(positions[i].symbol@ != p.symbol@);
                }
                lemma_unrelated_action(p, last, earlier, config, new_ids[n]);
            }
            assert forall|i: int| 0 <= i < positions.len() && selected(config, positions[i]) implies {
                let again = decide(positions[i], book, config);
                again == DecisionView::NoActionNeeded || again == decide(
                    positions[i],
                    orders,
                    config,
                )
            } by {
                if i < n {
                    assert(earlier_positions[i] == positions[i]);
                    assert(positions[i].symbol@ != positions[n].symbol@);
                    lemma_unrelated_action(positions[i], last, earlier, config, new_ids[n]);
                } else {
                    lemma_evaluate_idempotent(last, earlier, config, new_ids[n]);
                }
            }
        } else {
            assert forall|p: Position|
                (forall|i: int|
                    0 <= i < positions.len() ==> (#[trigger] positions[i]).symbol@
                        != p.symbol@) implies #[trigger] decide(p, book, config) == decide(
                p,
                orders,
                config,
            ) by {
                assert forall|i: int| 0 <= i < earlier_positions.len() implies (
                #[trigger] earlier_positions[i]).symbol@ != p.symbol@ by {
                    assert(earlier_positions[i] == positions[i]);
                    assert(positions[i].symbol@ != p.symbol@);
                }
            }
            assert forall|i: int| 0 <= i < positions.len() && selected(config, positions[i]) implies {
                let again = decide(positions[i], book, config);
                again == DecisionView::NoActionNeeded || again == decide(
                    positions[i],
                    orders,
                    config,
                )
            } by {
                assert(i < n);
                assert(earlier_positions[i] == positions[i]);
            }
        }
    }
}

/// Evaluations over two order books line up entry by entry where each
/// selected position's decision on the second book asks for nothing or for
/// the same as on the first.
proof fn lemma_evaluation_pointwise(
    config: GuardConfig,
    positions: Seq<Position>,
    first: Seq<Order>,
    second: Seq<Order>,
)
    requires
        forall|i: int|
            0 <= i < positions.len() && selected(config, positions[i]) ==> {
                let again = decide(positions[i], second, config);
                again == DecisionView::NoActionNeeded || again == decide(positions[i], first, config)
            },
    ensures
        evaluation(config, positions, second).len() == evaluation(config, positions, first).len(),
        forall|j: int|
            0 <= j < evaluation(config, positions, first).len() ==> {
                let before = #[trigger] evaluation(config, positions, first)[j];
                let after = evaluation(config, positions, second)[j];
                after.0 == before.0 && (after.1 == DecisionView::NoActionNeeded || after.1
                    == before.1)
            },
    decreases positions.len(),
{
    if positions.len() > 0 {
        let earlier_positions = positions.drop_last();
        assert forall|i: int|
            0 <= i < earlier_positions.len() && selected(
                config,
                earlier_positions[i],
            ) implies {
            let again = decide(earlier_positions[i], second, config);
            again == DecisionView::NoActionNeeded || again == decide(
                earlier_positions[i],
                first,
                config,
            )
        } by {
            assert(earlier_positions[i] == positions[i]);
        }
        lemma_evaluation_pointwise(config, earlier_positions, first, second);
        assert(positions.last() == positions[positions.len() - 1]);
    }
}

/// Evaluating all positions again, once every action that the first
/// evaluation called for has been carried out on the order book, gives the
/// same symbols, each asking for nothing more or for the very same thing.
/// Symbols are unique among the positions of a snapshot.
pub proof fn lemma_evaluate_all_idempotent(
    config: GuardConfig,
    positions: Seq<Position>,
    orders: Seq<Order>,
    new_ids: Seq<String>,
)
    requires
        forall|i: int| 0 <= i < positions.len() ==> (#[trigger] positions[i]).wf(),
        unique_symbols(positions),
    ensures
        ({
            let first = evaluation(config, positions, orders);
            let again = evaluation(
                config,
                positions,
                book_after(config, positions, orders, new_ids),
            );
            &&& again.len() == first.len()
            &&& forall|j: int|
                0 <= j < first.len() ==> (#[trigger] again[j]).0 == first[j].0 && (again[j].1
                    == DecisionView::NoActionNeeded || again[j].1 == first[j].1)
        }),
{
    lemma_book_after(config, positions, orders, new_ids);
    let book = book_after(config, positions, orders, new_ids);
    lemma_evaluation_pointwise(config, positions, orders, book);
}

} // verus!
