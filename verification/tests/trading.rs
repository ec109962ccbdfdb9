use std::str::FromStr;

use cuketut::trading::{
    buy, buy_with_orders, clear_open_orders, clear_positions, clear_trades, filter_open_orders,
    get_market, get_position, get_positions, get_trades, register_trade, remove_open_orders, sell,
    set_market, set_position, submit_oco_orders, submit_orders, Instrument, MarketData, Order,
    OrderType, Position, Price, Quantity, Side, State, Trade,
};
use rust_decimal::Decimal;

fn px(s: &str) -> Price {
    Price(Decimal::from_str(s).unwrap())
}

fn eurusd_market() -> (State, Instrument) {
    let state = State::new();
    let instrument = Instrument::from("EURUSD");
    let state = set_market(state, instrument.clone(), px("1.34662"), px("1.34714"));
    (state, instrument)
}

#[test]
fn test_get_market() {
    let state = State::new();
    let instrument = Instrument::from("EURUSD");
    let state = set_market(state, instrument.clone(), px("1.34662"), px("1.34714"));
    let m = get_market(&state, &instrument);
    assert_eq!(m.bid, px("1.34662"));
    assert_eq!(m.ask, px("1.34714"));
}

#[test]
fn test_trade_list_manipulation() {
    let state = State::new();
    let instrument = Instrument::from("EURUSD");

    assert!(get_trades(&state).is_empty());

    let state = register_trade(state, instrument.clone(), Quantity(1000000), px("1.34714"));

    let trades = get_trades(&state);
    assert_eq!(trades.len(), 1);
    assert_eq!(trades[0].instrument, instrument);
    assert_eq!(trades[0].last_qty, Quantity(1000000));
    assert_eq!(trades[0].last_px, px("1.34714"));
}

#[test]
fn test_buy_at_market() {
    let state = State::new();
    let instrument = Instrument::from("EURUSD");
    let state = set_market(state, instrument.clone(), px("1.34662"), px("1.34714"));

    let state = buy(state, instrument.clone(), Quantity(1000000));

    let trades = get_trades(&state);
    let positions = get_positions(&state);
    let eurusd_pos = get_position(&state, &instrument).unwrap();

    assert_eq!(trades.len(), 1);
    assert_eq!(trades[0].instrument, instrument);
    assert_eq!(trades[0].last_qty, Quantity(1000000));
    assert_eq!(trades[0].last_px, px("1.34714"));

    assert_eq!(positions.len(), 1);
    assert_eq!(eurusd_pos.instrument, instrument);
    assert_eq!(eurusd_pos.last_qty, Quantity(1000000));
    assert_eq!(eurusd_pos.last_px, px("1.34714"));
}

#[test]
fn test_buy_with_limit_and_stop_clojure() {
    let state = State::new();
    let instrument = Instrument::from("EURUSD");
    let state = set_market(state, instrument.clone(), px("1.34662"), px("1.34714"));

    let state = buy_with_orders(
        state,
        instrument.clone(),
        Quantity(1000000),
        px("1.4000"),
        px("1.3000"),
    );

    let trades = get_trades(&state);
    let positions = get_positions(&state);
    let eurusd_pos = get_position(&state, &instrument).unwrap();
    let eurusd_orders = filter_open_orders(&state, |o| o.instrument == instrument);

    assert_eq!(trades.len(), 1);
    assert_eq!(trades[0].last_qty, Quantity(1000000));
    assert_eq!(trades[0].last_px, px("1.34714"));

    assert_eq!(positions.len(), 1);
    assert_eq!(eurusd_pos.last_qty, Quantity(1000000));

    assert_eq!(eurusd_orders.len(), 2);

    let limit = eurusd_orders
        .iter()
        .find(|o| o.order_type == OrderType::Limit)
        .expect("Limit order not found");
    let stop = eurusd_orders
        .iter()
        .find(|o| o.order_type == OrderType::Stop)
        .expect("Stop order not found");

    assert_eq!(limit.side, Side::Sell);
    assert_eq!(limit.qty, Quantity(1000000));
    assert_eq!(limit.instrument, instrument);
    assert_eq!(limit.px, px("1.4000"));

    assert_eq!(stop.side, Side::Sell);
    assert_eq!(stop.qty, Quantity(1000000));
    assert_eq!(stop.instrument, instrument);
    assert_eq!(stop.px, px("1.3000"));
}

#[test]
fn test_sell_at_market() {
    let state = State::new();
    let instrument = Instrument::from("EURUSD");
    let state = set_market(state, instrument.clone(), px("1.34662"), px("1.34714"));

    let state = sell(state, instrument.clone(), Quantity(1000000));

    let trades = get_trades(&state);
    let positions = get_positions(&state);
    let eurusd_pos = get_position(&state, &instrument).unwrap();

    assert_eq!(trades.len(), 1);
    assert_eq!(trades[0].instrument, instrument);
    assert_eq!(trades[0].last_qty, Quantity(-1000000));
    assert_eq!(trades[0].last_px, px("1.34662"));

    assert_eq!(positions.len(), 1);
    assert_eq!(eurusd_pos.instrument, instrument);
    assert_eq!(eurusd_pos.last_qty, Quantity(-1000000));
    assert_eq!(eurusd_pos.last_px, px("1.34662"));
}

#[test]
fn test_quantity_neg() {
    let q = Quantity(100);
    assert_eq!(-q, Quantity(-100));
    assert_eq!(-(-q), Quantity(100));
}

// ----------------------------------------------------------------
// Further cases
// ----------------------------------------------------------------

#[test]
fn quantity_neg_of_zero_and_max() {
    assert_eq!(-Quantity(0), Quantity(0));
    assert_eq!(-Quantity(i64::MAX), Quantity(-i64::MAX));
    assert_eq!(-(-Quantity(-7)), Quantity(-7));
}

#[test]
fn constructors_keep_their_arguments() {
    assert_eq!(Quantity::new(42), Quantity(42));
    assert_eq!(Price::new(Decimal::from_str("1.5").unwrap()), px("1.5"));
    assert_eq!(Instrument::new("GBPUSD".to_string()), Instrument::from("GBPUSD"));
    assert_eq!(Instrument::from("GBPUSD".to_string()).0, "GBPUSD");
    let md = MarketData::new(px("1.1"), px("1.2"));
    assert_eq!(md.bid, px("1.1"));
    assert_eq!(md.ask, px("1.2"));
    let p = Position::new(Instrument::from("USDJPY"), Quantity(5), px("150.25"));
    assert_eq!(p.instrument, Instrument::from("USDJPY"));
    assert_eq!(p.last_qty, Quantity(5));
    assert_eq!(p.last_px, px("150.25"));
    let t = Trade::new(Instrument::from("USDJPY"), Quantity(-5), px("150.5"));
    assert_eq!(t.instrument, Instrument::from("USDJPY"));
    assert_eq!(t.last_qty, Quantity(-5));
    assert_eq!(t.last_px, px("150.5"));
}

#[test]
fn instruments_are_equal_by_name() {
    assert_eq!(Instrument::from("EURUSD"), Instrument::from("EURUSD".to_string()));
    assert_ne!(Instrument::from("EURUSD"), Instrument::from("EURGBP"));
}

#[test]
fn new_state_and_default_state_are_empty() {
    for state in [State::new(), State::default()] {
        assert!(get_trades(&state).is_empty());
        assert_eq!(get_positions(&state).len(), 0);
        assert!(filter_open_orders(&state, |_| true).is_empty());
        assert!(get_position(&state, &Instrument::from("EURUSD")).is_none());
    }
}

#[test]
fn setting_a_quote_again_replaces_it_and_keeps_others() {
    let (state, eurusd) = eurusd_market();
    let gbpusd = Instrument::from("GBPUSD");
    let state = set_market(state, gbpusd.clone(), px("1.25"), px("1.26"));
    let state = set_market(state, eurusd.clone(), px("1.30"), px("1.31"));
    let m = get_market(&state, &eurusd);
    assert_eq!(m.bid, px("1.30"));
    assert_eq!(m.ask, px("1.31"));
    let g = get_market(&state, &gbpusd);
    assert_eq!(g.bid, px("1.25"));
    assert_eq!(g.ask, px("1.26"));
}

#[test]
fn position_read_after_write() {
    let state = State::new();
    let eurusd = Instrument::from("EURUSD");
    assert!(get_position(&state, &eurusd).is_none());
    let state = set_position(state, eurusd.clone(), Quantity(0), px("1.34700"));
    let state = set_position(state, Instrument::from("GBPUSD"), Quantity(3), px("1.2"));
    let state = set_position(state, eurusd.clone(), Quantity(10), px("1.35"));
    assert_eq!(
        get_position(&state, &eurusd),
        Some(Position::new(eurusd.clone(), Quantity(10), px("1.35")))
    );
    assert_eq!(get_positions(&state).len(), 2);
    let positions = get_positions(&state);
    assert_eq!(
        positions.get(&Instrument::from("GBPUSD")),
        Some(&Position::new(Instrument::from("GBPUSD"), Quantity(3), px("1.2")))
    );
    let state = clear_positions(state);
    assert_eq!(get_positions(&state).len(), 0);
    assert!(get_position(&state, &eurusd).is_none());
}

#[test]
fn buy_replaces_the_position_and_appends_trades() {
    let (state, eurusd) = eurusd_market();
    let state = set_position(state, eurusd.clone(), Quantity(0), px("1.34700"));
    let state = buy(state, eurusd.clone(), Quantity(10));
    let state = sell(state, eurusd.clone(), Quantity(4));
    let trades = get_trades(&state);
    assert_eq!(trades.len(), 2);
    assert_eq!(trades[0].last_qty, Quantity(10));
    assert_eq!(trades[0].last_px, px("1.34714"));
    assert_eq!(trades[1].last_qty, Quantity(-4));
    assert_eq!(trades[1].last_px, px("1.34662"));
    assert_eq!(
        get_position(&state, &eurusd),
        Some(Position::new(eurusd.clone(), Quantity(-4), px("1.34662")))
    );
    // the quote is untouched
    assert_eq!(get_market(&state, &eurusd).ask, px("1.34714"));
    let state = clear_trades(state);
    assert!(get_trades(&state).is_empty());
    assert_eq!(get_positions(&state).len(), 1);
}

#[test]
fn exit_orders_of_a_buy_cancel_each_other() {
    let (state, eurusd) = eurusd_market();
    let state = buy_with_orders(state, eurusd.clone(), Quantity(7), px("1.38"), px("1.32"));
    let orders = filter_open_orders(&state, |_| true);
    assert_eq!(orders.len(), 2);
    assert_eq!(orders[0].order_type, OrderType::Limit);
    assert_eq!(orders[1].order_type, OrderType::Stop);
    assert_ne!(orders[0].id, orders[1].id);
    let ids = vec![orders[0].id, orders[1].id];
    assert_eq!(orders[0].oco_with, ids);
    assert_eq!(orders[1].oco_with, ids);
}

#[test]
fn make_oco_links_every_order_to_all() {
    let eurusd = Instrument::from("EURUSD");
    let a = Order::new(Side::Buy, Quantity(1), eurusd.clone(), OrderType::Limit, px("1.1"));
    let b = Order::new(Side::Sell, Quantity(2), eurusd.clone(), OrderType::Stop, px("1.2"));
    let c = Order::new(Side::Sell, Quantity(3), eurusd.clone(), OrderType::Limit, px("1.3"));
    assert!(a.oco_with.is_empty());
    let ids = vec![a.id, b.id, c.id];
    let linked = Order::make_oco(vec![a, b, c]);
    assert_eq!(linked.len(), 3);
    for (i, o) in linked.iter().enumerate() {
        assert_eq!(o.id, ids[i]);
        assert_eq!(o.oco_with, ids);
    }
    assert_eq!(linked[0].side, Side::Buy);
    assert_eq!(linked[1].qty, Quantity(2));
    assert_eq!(linked[2].px, px("1.3"));
    assert!(Order::make_oco(vec![]).is_empty());
}

#[test]
fn cloned_order_keeps_its_identifier() {
    let o = Order::new(Side::Buy, Quantity(1), Instrument::from("EURUSD"), OrderType::Limit, px("1.1"));
    let c = o.clone();
    assert_eq!(c.id, o.id);
    assert_eq!(c.px, o.px);
    assert_eq!(c.instrument, o.instrument);
}

#[test]
fn submitted_oco_pair_comes_after_existing_orders() {
    let eurusd = Instrument::from("EURUSD");
    let gbpusd = Instrument::from("GBPUSD");
    let first = Order::new(Side::Buy, Quantity(1), gbpusd.clone(), OrderType::Limit, px("1.2"));
    let first_id = first.id;
    let state = submit_orders(State::new(), vec![first]);
    let a = Order::new(Side::Sell, Quantity(5), eurusd.clone(), OrderType::Limit, px("1.4"));
    let b = Order::new(Side::Sell, Quantity(5), eurusd.clone(), OrderType::Stop, px("1.3"));
    let (a_id, b_id) = (a.id, b.id);
    let state = submit_oco_orders(state, a, b);
    let orders = filter_open_orders(&state, |_| true);
    assert_eq!(orders.len(), 3);
    assert_eq!(orders[0].id, first_id);
    assert!(orders[0].oco_with.is_empty());
    assert_eq!(orders[1].id, a_id);
    assert_eq!(orders[2].id, b_id);
    assert_eq!(orders[1].oco_with, vec![a_id, b_id]);
    assert_eq!(orders[2].oco_with, vec![a_id, b_id]);
    let state = clear_open_orders(state);
    assert!(filter_open_orders(&state, |_| true).is_empty());
}

#[test]
fn removed_orders_are_not_found_again_and_the_rest_keep_their_order() {
    let eurusd = Instrument::from("EURUSD");
    let gbpusd = Instrument::from("GBPUSD");
    let o1 = Order::new(Side::Buy, Quantity(1), eurusd.clone(), OrderType::Limit, px("1.1"));
    let o2 = Order::new(Side::Buy, Quantity(2), gbpusd.clone(), OrderType::Limit, px("1.2"));
    let o3 = Order::new(Side::Sell, Quantity(3), eurusd.clone(), OrderType::Stop, px("1.3"));
    let o4 = Order::new(Side::Sell, Quantity(4), gbpusd.clone(), OrderType::Stop, px("1.4"));
    let (id2, id4) = (o2.id, o4.id);
    let state = submit_orders(State::new(), vec![o1, o2, o3, o4]);
    assert_eq!(filter_open_orders(&state, |o| o.instrument == eurusd).len(), 2);
    let state = remove_open_orders(state, |o| o.instrument == eurusd);
    assert!(filter_open_orders(&state, |o| o.instrument == eurusd).is_empty());
    let rest = filter_open_orders(&state, |_| true);
    assert_eq!(rest.len(), 2);
    assert_eq!(rest[0].id, id2);
    assert_eq!(rest[1].id, id4);
}

#[test]
fn position_map_lists_every_instrument_once() {
    let state = set_position(State::new(), Instrument::from("EURUSD"), Quantity(1), px("1.1"));
    let state = set_position(state, Instrument::from("GBPUSD"), Quantity(2), px("1.2"));
    let state = set_position(state, Instrument::from("EURUSD"), Quantity(3), px("1.3"));
    let mut entries = get_positions(&state).entries();
    entries.sort_by(|a, b| a.0 .0.cmp(&b.0 .0));
    assert_eq!(entries.len(), 2);
    assert_eq!(entries[0].0, Instrument::from("EURUSD"));
    assert_eq!(entries[0].1, Position::new(Instrument::from("EURUSD"), Quantity(3), px("1.3")));
    assert_eq!(entries[1].0, Instrument::from("GBPUSD"));
    assert_eq!(entries[1].1, Position::new(Instrument::from("GBPUSD"), Quantity(2), px("1.2")));
    assert!(get_positions(&State::new()).entries().is_empty());
}

#[test]
fn filter_after_remove_keeps_what_the_removal_rejects_and_the_filter_accepts() {
    let eurusd = Instrument::from("EURUSD");
    let gbpusd = Instrument::from("GBPUSD");
    let o1 = Order::new(Side::Buy, Quantity(1), eurusd.clone(), OrderType::Limit, px("1.1"));
    let o2 = Order::new(Side::Sell, Quantity(2), gbpusd.clone(), OrderType::Limit, px("1.2"));
    let o3 = Order::new(Side::Sell, Quantity(3), eurusd.clone(), OrderType::Stop, px("1.3"));
    let o4 = Order::new(Side::Buy, Quantity(4), gbpusd.clone(), OrderType::Stop, px("1.4"));
    let o5 = Order::new(Side::Sell, Quantity(5), gbpusd.clone(), OrderType::Stop, px("1.5"));
    let (id2, id5) = (o2.id, o5.id);
    let state = submit_orders(State::new(), vec![o1, o2, o3, o4, o5]);
    let state = remove_open_orders(state, |o| o.instrument == eurusd);
    let found = filter_open_orders(&state, |o| o.side == Side::Sell);
    assert_eq!(found.len(), 2);
    assert_eq!(found[0].id, id2);
    assert_eq!(found[1].id, id5);
}
