//! Properties of the trading operations that hold for every input, stated
//! over the models that the operations' contracts use.

use vstd::prelude::*;

use uuid::Uuid;
use vstd::std_specs::ops::NegSpec;

use crate::trading::{
    decided_by, exit_orders, ids_of, lemma_pick_decisions, oco_group, pick, Instrument, MarketData, Order, OrderType,
    OrderView, Position, Price, Quantity, Side, StateView, Trade,
};

verus! {

/// Negating a quantity twice gives it back, and the first negation gives the
/// opposite amount (for every amount whose opposite is an `i64`).
pub proof fn law_negation_is_an_involution(q: Quantity)
    requires
        q.0 != i64::MIN,
    ensures
        q.neg_spec().0 == -q.0,
        q.neg_spec().neg_req(),
        q.neg_spec().neg_spec() == q,
{
}

/// After the quote of an instrument is set, reading it gives the quote that
/// was set; the quotes of other instruments, and everything else, stay as they were.
pub proof fn law_quote_read_after_write(s: StateView, cross: Seq<char>, quote: MarketData)
    ensures
        s.with_market(cross, quote).market.contains_key(cross),
        s.with_market(cross, quote).market[cross] == quote,
        forall|other: Seq<char>|
            other != cross ==> (#[trigger] s.with_market(cross, quote).market.contains_key(other)
                == s.market.contains_key(other) && s.with_market(cross, quote).market[other]
                == s.market[other]),
        s.with_market(cross, quote).trades == s.trades,
        s.with_market(cross, quote).positions == s.positions,
        s.with_market(cross, quote).open_orders == s.open_orders,
{
}

/// After a position is set, reading the position of its instrument gives it;
/// the positions in other instruments, and everything else, stay as they were.
pub proof fn law_position_read_after_write(s: StateView, p: Position)
    ensures
        s.with_position(p).positions.contains_key(p.instrument@),
        s.with_position(p).positions[p.instrument@] == p,
        forall|other: Seq<char>|
            other != p.instrument@ ==> (#[trigger] s.with_position(p).positions.contains_key(
                other,
            ) == s.positions.contains_key(other) && s.with_position(p).positions[other]
                == s.positions[other]),
        s.with_position(p).trades == s.trades,
        s.with_position(p).market == s.market,
        s.with_position(p).open_orders == s.open_orders,
{
}

/// Buying at the market makes one more trade, of the bought amount at the ask,
/// and the position in the instrument shows that amount at the ask; earlier
/// trades, the positions in other instruments, quotes and open orders stay as
/// they were.
pub proof fn law_buy_trades_at_the_ask(s: StateView, cross: Instrument, qty: Quantity)
    requires
        s.market.contains_key(cross@),
    ensures
        s.after_buy(cross, qty).trades == s.trades.push(
            Trade { instrument: cross, last_qty: qty, last_px: s.market[cross@].ask },
        ),
        s.after_buy(cross, qty).positions[cross@] == (Position {
            instrument: cross,
            last_qty: qty,
            last_px: s.market[cross@].ask,
        }),
        forall|other: Seq<char>|
            other != cross@ ==> (#[trigger] s.after_buy(cross, qty).positions.contains_key(other)
                == s.positions.contains_key(other) && s.after_buy(cross, qty).positions[other]
                == s.positions[other]),
        s.after_buy(cross, qty).market == s.market,
        s.after_buy(cross, qty).open_orders == s.open_orders,
{
}

/// Selling at the market makes one more trade, of the opposite amount at the
/// bid, and the position in the instrument shows that short amount at the bid;
/// earlier trades (in their order), the positions in other instruments, quotes
/// and open orders stay as they were.
pub proof fn law_sell_trades_at_the_bid(s: StateView, cross: Instrument, qty: Quantity)
    requires
        s.market.contains_key(cross@),
        qty.0 != i64::MIN,
    ensures
        s.after_sell(cross, qty).trades.len() == s.trades.len() + 1,
        s.after_sell(cross, qty).trades.take(s.trades.len() as int) == s.trades,
        s.after_sell(cross, qty).trades.last().instrument == cross,
        s.after_sell(cross, qty).trades.last().last_qty.0 == -qty.0,
        s.after_sell(cross, qty).trades.last().last_px == s.market[cross@].bid,
        s.after_sell(cross, qty).positions[cross@].last_qty.0 == -qty.0,
        s.after_sell(cross, qty).positions[cross@].last_px == s.market[cross@].bid,
        forall|other: Seq<char>|
            other != cross@ ==> (#[trigger] s.after_sell(cross, qty).positions.contains_key(other)
                == s.positions.contains_key(other) && s.after_sell(cross, qty).positions[other]
                == s.positions[other]),
        s.after_sell(cross, qty).market == s.market,
        s.after_sell(cross, qty).open_orders == s.open_orders,
{
    assert(s.after_sell(cross, qty).trades.take(s.trades.len() as int) =~= s.trades);
}

/// Buying with exit orders keeps every earlier trade, every position in another
/// instrument and every open order in its place, adds one trade at the ask and
/// the two exit orders after the open orders, and leaves the quotes unchanged.
pub proof fn law_buy_with_orders_keeps_what_was_there(
    s: StateView,
    cross: Instrument,
    qty: Quantity,
    exits: Seq<OrderView>,
)
    requires
        s.market.contains_key(cross@),
        exits.len() == 2,
    ensures
        s.after_buy(cross, qty).with_orders(exits).trades.take(s.trades.len() as int) == s.trades,
        s.after_buy(cross, qty).with_orders(exits).trades.last() == (Trade {
            instrument: cross,
            last_qty: qty,
            last_px: s.market[cross@].ask,
        }),
        forall|other: Seq<char>|
            other != cross@ ==> (#[trigger] s.after_buy(cross, qty).with_orders(
                exits,
            ).positions.contains_key(other) == s.positions.contains_key(other) && s.after_buy(
                cross,
                qty,
            ).with_orders(exits).positions[other] == s.positions[other]),
        s.after_buy(cross, qty).with_orders(exits).open_orders.len() == s.open_orders.len() + 2,
        s.after_buy(cross, qty).with_orders(exits).open_orders.take(s.open_orders.len() as int)
            == s.open_orders,
        s.after_buy(cross, qty).with_orders(exits).market == s.market,
{
    let t = s.after_buy(cross, qty).with_orders(exits);
    assert(t.trades.take(s.trades.len() as int) =~= s.trades);
    assert(t.open_orders.take(s.open_orders.len() as int) =~= s.open_orders);
}

/// Recording a trade keeps every earlier trade in its place and puts the new
/// trade last; nothing else changes.
pub proof fn law_recorded_trade_comes_last(s: StateView, t: Trade)
    ensures
        s.with_trade(t).trades.len() == s.trades.len() + 1,
        s.with_trade(t).trades.last() == t,
        s.with_trade(t).trades.take(s.trades.len() as int) == s.trades,
        s.with_trade(t).positions == s.positions,
        s.with_trade(t).market == s.market,
        s.with_trade(t).open_orders == s.open_orders,
{
    assert(s.with_trade(t).trades.take(s.trades.len() as int) =~= s.trades);
}

/// Submitting orders keeps the open orders in their places and puts the new
/// orders after them, in the order given; nothing else changes.
pub proof fn law_submitted_orders_come_last(s: StateView, orders: Seq<OrderView>)
    ensures
        s.with_orders(orders).open_orders.len() == s.open_orders.len() + orders.len(),
        s.with_orders(orders).open_orders.take(s.open_orders.len() as int) == s.open_orders,
        s.with_orders(orders).open_orders.skip(s.open_orders.len() as int) == orders,
        s.with_orders(orders).trades == s.trades,
        s.with_orders(orders).positions == s.positions,
        s.with_orders(orders).market == s.market,
{
    assert(s.with_orders(orders).open_orders.take(s.open_orders.len() as int) =~= s.open_orders);
    assert(s.with_orders(orders).open_orders.skip(s.open_orders.len() as int) =~= orders);
}

/// In an OCO group every order is linked to every order of the group, so that
/// executing any one of them cancels all the others; nothing else of an order changes.
pub proof fn law_oco_orders_cancel_each_other(orders: Seq<OrderView>)
    ensures
        oco_group(orders).len() == orders.len(),
        forall|i: int|
            0 <= i < orders.len() ==> {
                &&& #[trigger] oco_group(orders)[i].id == orders[i].id
                &&& oco_group(orders)[i].side == orders[i].side
                &&& oco_group(orders)[i].qty == orders[i].qty
                &&& oco_group(orders)[i].instrument == orders[i].instrument
                &&& oco_group(orders)[i].order_type == orders[i].order_type
                &&& oco_group(orders)[i].px == orders[i].px
                &&& oco_group(orders)[i].oco_with == ids_of(orders)
            },
        forall|i: int, j: int|
            0 <= i < orders.len() && 0 <= j < orders.len() ==> #[trigger] oco_group(
                orders,
            )[i].oco_with.contains(#[trigger] orders[j].id),
{
    assert forall|i: int, j: int|
        0 <= i < orders.len() && 0 <= j < orders.len() implies #[trigger] oco_group(
        orders,
    )[i].oco_with.contains(#[trigger] orders[j].id) by {
        assert(ids_of(orders)[j] == orders[j].id);
    }
}

/// The two exit orders placed with a buy each name both of them, so that
/// whichever executes first cancels the other: a take-profit limit sell at the
/// target and a stop-loss stop sell at the stop, both for the bought amount.
pub proof fn law_exit_orders_cancel_each_other(
    take_profit_id: Uuid,
    stop_loss_id: Uuid,
    cross: Instrument,
    qty: Quantity,
    target: Price,
    stop: Price,
)
    ensures
        exit_orders(take_profit_id, stop_loss_id, cross, qty, target, stop) == seq![
            OrderView {
                id: take_profit_id,
                side: Side::Sell,
                qty,
                instrument: cross,
                order_type: OrderType::Limit,
                px: target,
                oco_with: seq![take_profit_id, stop_loss_id],
            },
            OrderView {
                id: stop_loss_id,
                side: Side::Sell,
                qty,
                instrument: cross,
                order_type: OrderType::Stop,
                px: stop,
                oco_with: seq![take_profit_id, stop_loss_id],
            },
        ],
{
    let exits = exit_orders(take_profit_id, stop_loss_id, cross, qty, target, stop);
    let ids = seq![take_profit_id, stop_loss_id];
    assert(exits[0].oco_with =~= ids);
    assert(exits[1].oco_with =~= ids);
    assert(exits =~= seq![
        OrderView {
            id: take_profit_id,
            side: Side::Sell,
            qty,
            instrument: cross,
            order_type: OrderType::Limit,
            px: target,
            oco_with: ids,
        },
        OrderView {
            id: stop_loss_id,
            side: Side::Sell,
            qty,
            instrument: cross,
            order_type: OrderType::Stop,
            px: stop,
            oco_with: ids,
        },
    ]);
}

/// `pred` gives one answer for each order.
pub open spec fn answers_once<F: Fn(&Order) -> bool>(pred: F) -> bool {
    forall|o: Order, a: bool, b: bool|
        #![trigger call_ensures(pred, (&o,), a), call_ensures(pred, (&o,), b)]
        call_ensures(pred, (&o,), a) && call_ensures(pred, (&o,), b) ==> a == b
}

/// Each element that `pick` keeps is an element of the list whose decision was `want`.
proof fn lemma_pick_origin<A>(s: Seq<A>, keep: Seq<bool>, want: bool)
    ensures
        forall|j: int|
            0 <= j < pick(s, keep, want).len() ==> exists|i: int|
                0 <= i < s.len() && keep[i] == want && #[trigger] pick(s, keep, want)[j] == s[i],
    decreases s.len(),
{
    if s.len() > 0 {
        lemma_pick_origin(s.drop_last(), keep, want);
        let rest = pick(s.drop_last(), keep, want);
        assert forall|j: int| 0 <= j < pick(s, keep, want).len() implies exists|i: int|
            0 <= i < s.len() && keep[i] == want && #[trigger] pick(s, keep, want)[j] == s[i] by {
            if j < rest.len() {
                let i = choose|i: int|
                    0 <= i < s.drop_last().len() && keep[i] == want && #[trigger] rest[j]
                        == s.drop_last()[i];
                assert(pick(s, keep, want)[j] == s[i]);
            } else {
                assert(pick(s, keep, want)[j] == s[s.len() - 1]);
            }
        }
    }
}

/// `pick` keeps nothing when no decision is `want`.
proof fn lemma_pick_none<A>(s: Seq<A>, keep: Seq<bool>, want: bool)
    requires
        forall|i: int| 0 <= i < s.len() ==> keep[i] != want,
    ensures
        pick(s, keep, want).len() == 0,
    decreases s.len(),
{
    if s.len() > 0 {
        lemma_pick_none(s.drop_last(), keep, want);
    }
}

/// Every element goes either to what `pick` keeps for `true` or to what it
/// keeps for `false`.
proof fn lemma_pick_split<A>(s: Seq<A>, keep: Seq<bool>)
    ensures
        pick(s, keep, true).len() + pick(s, keep, false).len() == s.len(),
    decreases s.len(),
{
    if s.len() > 0 {
        lemma_pick_split(s.drop_last(), keep);
    }
}

/// Once the open orders matching a predicate have been removed, filtering the
/// open orders by that same predicate finds none (for a predicate that gives
/// one answer per order).
pub proof fn law_filter_after_remove_finds_nothing<F: Fn(&Order) -> bool>(
    pred: F,
    orders: Seq<Order>,
    removal: Seq<bool>,
    selection: Seq<bool>,
)
    requires
        answers_once(pred),
        decided_by(pred, orders, removal),
        decided_by(pred, pick(orders, removal, false), selection),
    ensures
        pick(pick(orders, removal, false), selection, true).len() == 0,
{
    let rest = pick(orders, removal, false);
    lemma_pick_origin(orders, removal, false);
    assert forall|j: int| 0 <= j < rest.len() implies selection[j] != true by {
        let i = choose|i: int|
            0 <= i < orders.len() && removal[i] == false && #[trigger] rest[j] == orders[i];
        assert(call_ensures(pred, (&orders[i],), removal[i]));
        assert(call_ensures(pred, (&rest[j],), selection[j]));
    }
    lemma_pick_none(rest, selection, true);
}

/// Filtering the open orders by a predicate and removing them by the same
/// decisions split the open orders: every order goes to exactly one side.
pub proof fn law_filter_and_remove_split_the_orders<F: Fn(&Order) -> bool>(
    pred: F,
    orders: Seq<Order>,
    keep: Seq<bool>,
)
    requires
        decided_by(pred, orders, keep),
    ensures
        pick(orders, keep, true).len() + pick(orders, keep, false).len() == orders.len(),
{
    lemma_pick_split(orders, keep);
}


/// The decisions "rejected by the removal and accepted by the selection".
pub open spec fn both_decisions(removal: Seq<bool>, selection: Seq<bool>) -> Seq<bool> {
    Seq::new(removal.len(), |i: int| !removal[i] && selection[i])
}

/// Picking by `q` among what removal by `kp` left is picking by "not removed
/// and accepted by `q`" in the whole list, when `q` answers once per order.
proof fn lemma_pick_after_pick<F: Fn(&Order) -> bool>(
    q: F,
    s: Seq<Order>,
    kp: Seq<bool>,
    kq: Seq<bool>,
    kq_all: Seq<bool>,
)
    requires
        answers_once(q),
        kp.len() == s.len(),
        kq_all.len() == s.len(),
        forall|j: int|
            0 <= j < pick(s, kp, false).len() ==> call_ensures(
                q,
                (&pick(s, kp, false)[j],),
                kq[j],
            ),
        forall|i: int| 0 <= i < s.len() ==> call_ensures(q, (&s[i],), kq_all[i]),
    ensures
        pick(pick(s, kp, false), kq, true) == pick(s, both_decisions(kp, kq_all), true),
    decreases s.len(),
{
    if s.len() > 0 {
        let n = s.len() as int;
        let s0 = s.drop_last();
        let kp0 = kp.drop_last();
        let kq_all0 = kq_all.drop_last();
        lemma_pick_decisions(s0, kp0, kp, false);
        let rest0 = pick(s0, kp, false);
        let rest = pick(s, kp, false);
        assert forall|j: int| 0 <= j < pick(s0, kp0, false).len() implies call_ensures(
            q,
            (&pick(s0, kp0, false)[j],),
            kq[j],
        ) by {
            assert(rest[j] == rest0[j]);
        }
        lemma_pick_after_pick(q, s0, kp0, kq, kq_all0);
        lemma_pick_decisions(s0, both_decisions(kp0, kq_all0), both_decisions(kp, kq_all), true);
        let both = both_decisions(kp, kq_all);
        if kp[n - 1] == false {
            assert(rest == rest0.push(s[n - 1]));
            assert(rest.drop_last() =~= rest0);
            let m = rest0.len() as int;
            assert(rest[m] == s[n - 1]);
            assert(call_ensures(q, (&rest[m],), kq[m]));
            assert(call_ensures(q, (&s[n - 1],), kq_all[n - 1]));
            assert(kq[m] == kq_all[n - 1]);
            assert(both[n - 1] == kq_all[n - 1]);
        } else {
            assert(rest == rest0);
            assert(both[n - 1] == false);
        }
    }
}

/// Once the open orders accepted by `p` have been removed, filtering the open
/// orders by `q` finds the orders that `p` rejects and `q` accepts, in their
/// order (for a `q` that gives one answer per order).
pub proof fn law_filter_after_remove_is_filter_by_both<F: Fn(&Order) -> bool, G: Fn(&Order) -> bool>(
    p: F,
    q: G,
    orders: Seq<Order>,
    removal: Seq<bool>,
    selection: Seq<bool>,
    answers_of_q: Seq<bool>,
)
    requires
        answers_once(q),
        decided_by(p, orders, removal),
        decided_by(q, pick(orders, removal, false), selection),
        decided_by(q, orders, answers_of_q),
    ensures
        pick(pick(orders, removal, false), selection, true) == pick(
            orders,
            both_decisions(removal, answers_of_q),
            true,
        ),
{
    lemma_pick_after_pick(q, orders, removal, selection, answers_of_q);
}
} // verus!
