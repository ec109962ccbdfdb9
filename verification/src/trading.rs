//! Instruments, prices, orders and trades, and the trading state that the
//! market, position, order and trade operations act on.

use vstd::prelude::*;

use rust_decimal::Decimal;
use uuid::Uuid;

use crate::instrument_map::InstrumentMap;

verus! {

broadcast use vstd::string::group_string_axioms;

/// `rust_decimal::Decimal`, carried through prices as an opaque value.
#[verifier::external_type_specification]
#[verifier::external_body]
pub struct ExDecimal(Decimal);

/// `uuid::Uuid`, the opaque identifier of an order.
#[verifier::external_type_specification]
#[verifier::external_body]
pub struct ExUuid(Uuid);

// ----------------------------------------------------------------
// Instrument
// ----------------------------------------------------------------

/// A traded instrument, named by its cross (for example `EURUSD`).
#[derive(Debug, Eq, Hash)]
pub struct Instrument(pub String);

impl View for Instrument {
    type V = Seq<char>;

    open spec fn view(&self) -> Seq<char> {
        self.0@
    }
}

impl Instrument {
    /// The instrument with the given name.
    pub fn new(s: String) -> (r: Self)
        ensures
            r.0 == s,
    {
        Self(s)
    }
}

impl Clone for Instrument {
    /// The same instrument.
    fn clone(&self) -> (r: Self)
        ensures
            r == *self,
    {
        Instrument(self.0.clone())
    }
}

impl PartialEq for Instrument {
    fn eq(&self, other: &Self) -> (r: bool) {
        self.0 == other.0
    }
}

impl vstd::std_specs::cmp::PartialEqSpecImpl for Instrument {
    open spec fn obeys_eq_spec() -> bool {
        true
    }

    open spec fn eq_spec(&self, other: &Self) -> bool {
        self@ == other@
    }
}

impl From<String> for Instrument {
    fn from(value: String) -> (r: Self) {
        Self(value)
    }
}

impl vstd::std_specs::convert::FromSpecImpl<String> for Instrument {
    open spec fn obeys_from_spec() -> bool {
        true
    }

    open spec fn from_spec(v: String) -> Self {
        Instrument(v)
    }
}

impl<'a> vstd::std_specs::convert::FromSpecImpl<&'a str> for Instrument {
    /// The instrument made from a string slice is not fixed as a value here,
    /// only its name; `from` states that name.
    open spec fn obeys_from_spec() -> bool {
        false
    }

    open spec fn from_spec(v: &'a str) -> Self {
        vstd::pervasive::arbitrary()
    }
}

impl<'a> From<&'a str> for Instrument {
    fn from(value: &'a str) -> (r: Self)
        ensures
            r@ == value@,
    {
        Self(value.to_string())
    }
}

// ----------------------------------------------------------------
// Price and quantity
// ----------------------------------------------------------------

/// A price, held as an exact decimal.
#[derive(Debug, Clone, Copy, PartialEq, Eq, PartialOrd, Ord)]
pub struct Price(pub Decimal);

impl Price {
    /// The price with the given decimal value.
    pub fn new(d: Decimal) -> (r: Self)
        ensures
            r.0 == d,
    {
        Self(d)
    }
}

/// A signed amount of an instrument; a negative amount stands for a short position.
#[derive(Debug, Clone, Copy, PartialEq, Eq, PartialOrd, Ord)]
pub struct Quantity(pub i64);

impl Quantity {
    /// The quantity with the given amount.
    pub fn new(q: i64) -> (r: Self)
        ensures
            r.0 == q,
    {
        Self(q)
    }
}

impl vstd::std_specs::ops::NegSpecImpl for Quantity {
    open spec fn obeys_neg_spec() -> bool {
        true
    }

    open spec fn neg_req(self) -> bool {
        self.0 != i64::MIN
    }

    open spec fn neg_spec(self) -> Quantity {
        Quantity(-self.0 as i64)
    }
}

impl std::ops::Neg for Quantity {
    type Output = Self;

    /// The opposite amount; defined for every amount but `i64::MIN`.
    fn neg(self) -> (r: Self) {
        Quantity(-self.0)
    }
}

// ----------------------------------------------------------------
// Sides, order types, market data, positions, trades
// ----------------------------------------------------------------

/// Whether an order buys or sells.
#[derive(Debug, Clone, Copy, PartialEq, Eq)]
pub enum Side {
    Buy,
    Sell,
}

/// The kind of a conditional order.
#[derive(Debug, Clone, Copy, PartialEq, Eq)]
pub enum OrderType {
    Limit,
    Stop,
}

/// The quote of an instrument: the price one can sell at (bid) and buy at (ask).
#[derive(Debug)]
pub struct MarketData {
    pub bid: Price,
    pub ask: Price,
}

impl MarketData {
    /// The quote with the given bid and ask.
    pub fn new(bid: Price, ask: Price) -> (r: Self)
        ensures
            r == (MarketData { bid, ask }),
    {
        Self { bid, ask }
    }
}

impl Clone for MarketData {
    /// The same quote.
    fn clone(&self) -> (r: Self)
        ensures
            r == *self,
    {
        MarketData { bid: self.bid, ask: self.ask }
    }
}

/// The holding in one instrument, with the price of the trade that made it.
#[derive(Debug, PartialEq, Eq)]
pub struct Position {
    pub instrument: Instrument,
    /// Negative for a short position.
    pub last_qty: Quantity,
    pub last_px: Price,
}

impl Position {
    /// The position of `qty` of `instrument` at `price`.
    pub fn new(instrument: Instrument, qty: Quantity, price: Price) -> (r: Self)
        ensures
            r == (Position { instrument, last_qty: qty, last_px: price }),
    {
        Self { instrument, last_qty: qty, last_px: price }
    }
}

impl Clone for Position {
    /// The same position.
    fn clone(&self) -> (r: Self)
        ensures
            r == *self,
    {
        Position {
            instrument: self.instrument.clone(),
            last_qty: self.last_qty,
            last_px: self.last_px,
        }
    }
}

/// A trade that was made: a quantity of an instrument at a price.
#[derive(Debug)]
pub struct Trade {
    pub instrument: Instrument,
    pub last_qty: Quantity,
    pub last_px: Price,
}

impl Trade {
    /// The trade of `qty` of `instrument` at `price`.
    pub fn new(instrument: Instrument, qty: Quantity, price: Price) -> (r: Self)
        ensures
            r == (Trade { instrument, last_qty: qty, last_px: price }),
    {
        Self { instrument, last_qty: qty, last_px: price }
    }
}

impl Clone for Trade {
    /// The same trade.
    fn clone(&self) -> (r: Self)
        ensures
            r == *self,
    {
        Trade {
            instrument: self.instrument.clone(),
            last_qty: self.last_qty,
            last_px: self.last_px,
        }
    }
}


// ----------------------------------------------------------------
// Orders
// ----------------------------------------------------------------

/// Draws the identifier of a new order.
///
/// Calls `uuid::Uuid::new_v4`, which builds a random (version 4) identifier from
/// bytes of the operating system's random generator. What comes back depends on
/// chance, so nothing is stated of it; uuid panics when the generator fails.
#[verifier::external_body]
fn fresh_order_id() -> (id: Uuid) {
    Uuid::new_v4()
}

/// A conditional order resting in the market.
#[derive(Debug)]
pub struct Order {
    pub id: Uuid,
    pub side: Side,
    pub qty: Quantity,
    pub instrument: Instrument,
    pub order_type: OrderType,
    pub px: Price,
    /// The identifiers of the orders that this order cancels when it executes.
    pub oco_with: Vec<Uuid>,
}

/// An order, with the identifiers it is linked to as a sequence.
pub struct OrderView {
    pub id: Uuid,
    pub side: Side,
    pub qty: Quantity,
    pub instrument: Instrument,
    pub order_type: OrderType,
    pub px: Price,
    pub oco_with: Seq<Uuid>,
}

impl View for Order {
    type V = OrderView;

    open spec fn view(&self) -> OrderView {
        OrderView {
            id: self.id,
            side: self.side,
            qty: self.qty,
            instrument: self.instrument,
            order_type: self.order_type,
            px: self.px,
            oco_with: self.oco_with@,
        }
    }
}

/// The views of a list of orders.
pub open spec fn views_of(orders: Seq<Order>) -> Seq<OrderView> {
    orders.map_values(|o: Order| o@)
}

/// The identifiers of a list of orders, in order.
pub open spec fn ids_of(orders: Seq<OrderView>) -> Seq<Uuid> {
    orders.map_values(|o: OrderView| o.id)
}

/// The orders of `orders`, each linked to every order of the list
/// ("one cancels the other"), all else unchanged.
pub open spec fn oco_group(orders: Seq<OrderView>) -> Seq<OrderView> {
    orders.map_values(|o: OrderView| OrderView { oco_with: ids_of(orders), ..o })
}

/// A copy of a list of identifiers.
fn copy_ids(ids: &Vec<Uuid>) -> (r: Vec<Uuid>)
    ensures
        r@ == ids@,
{
    let n = ids.len();
    let mut r: Vec<Uuid> = Vec::new();
    let mut i: usize = 0;
    while i < n
        invariant
            n == ids@.len(),
            0 <= i <= n,
            r@ =~= ids@.take(i as int),
        decreases n - i,
    {
        r.push(ids[i]);
        i = i + 1;
    }
    assert(r@ =~= ids@);
    r
}

impl Order {
    /// A new order, with a fresh identifier and linked to no other order.
    pub fn new(
        side: Side,
        qty: Quantity,
        instrument: Instrument,
        order_type: OrderType,
        price: Price,
    ) -> (r: Self)
        ensures
            r@ == (OrderView {
                id: r.id,
                side,
                qty,
                instrument,
                order_type,
                px: price,
                oco_with: Seq::empty(),
            }),
    {
        let r = Self {
            id: fresh_order_id(),
            side,
            qty,
            instrument,
            order_type,
            px: price,
            oco_with: Vec::new(),
        };
        assert(r.oco_with@ =~= Seq::<Uuid>::empty());
        r
    }

    /// *One cancels the other*: links every order to every order of the list,
    /// so that executing one of them cancels the others.
    pub fn make_oco(orders: Vec<Order>) -> (r: Vec<Order>)
        ensures
            views_of(r@) == oco_group(views_of(orders@)),
    {
        let n = orders.len();
        let mut ids: Vec<Uuid> = Vec::new();
        let mut i: usize = 0;
        while i < n
            invariant
                n == orders@.len(),
                0 <= i <= n,
                ids@ =~= ids_of(views_of(orders@)).take(i as int),
            decreases n - i,
        {
            ids.push(orders[i].id);
            i = i + 1;
        }
        assert(ids@ =~= ids_of(views_of(orders@)));
        let mut r: Vec<Order> = Vec::new();
        let mut k: usize = 0;
        while k < n
            invariant
                n == orders@.len(),
                0 <= k <= n,
                ids@ == ids_of(views_of(orders@)),
                views_of(r@) =~= oco_group(views_of(orders@)).take(k as int),
            decreases n - k,
        {
            let o = &orders[k];
            let linked = Order {
                id: o.id,
                side: o.side,
                qty: o.qty,
                instrument: o.instrument.clone(),
                order_type: o.order_type,
                px: o.px,
                oco_with: copy_ids(&ids),
            };
            proof {
                lemma_views_of_push(r@, linked);
                assert(linked@ == oco_group(views_of(orders@))[k as int]);
            }
            r.push(linked);
            k = k + 1;
        }
        assert(views_of(r@) =~= oco_group(views_of(orders@)));
        r
    }
}

impl Clone for Order {
    /// An order with the same fields.
    fn clone(&self) -> (r: Self)
        ensures
            r@ == self@,
    {
        Order {
            id: self.id,
            side: self.side,
            qty: self.qty,
            instrument: self.instrument.clone(),
            order_type: self.order_type,
            px: self.px,
            oco_with: copy_ids(&self.oco_with),
        }
    }
}

// ----------------------------------------------------------------
// Choosing orders by a predicate
// ----------------------------------------------------------------

/// The elements `s[i]` whose decision `keep[i]` is `want`, in their order.
pub open spec fn pick<A>(s: Seq<A>, keep: Seq<bool>, want: bool) -> Seq<A>
    decreases s.len(),
{
    if s.len() == 0 {
        Seq::empty()
    } else {
        let rest = pick(s.drop_last(), keep, want);
        if keep[s.len() - 1] == want {
            rest.push(s.last())
        } else {
            rest
        }
    }
}

/// `keep[i]` is an answer that `pred` can give for `orders[i]`, for every `i`.
pub open spec fn decided_by<F: Fn(&Order) -> bool>(
    pred: F,
    orders: Seq<Order>,
    keep: Seq<bool>,
) -> bool {
    &&& keep.len() == orders.len()
    &&& forall|i: int| 0 <= i < orders.len() ==> call_ensures(pred, (&orders[i],), keep[i])
}

/// `pred` can be called on every order of `orders`.
pub open spec fn accepts_all<F: Fn(&Order) -> bool>(pred: F, orders: Seq<Order>) -> bool {
    forall|i: int| 0 <= i < orders.len() ==> call_requires(pred, (&orders[i],))
}

/// What `pick` keeps of a list depends only on the decisions for its own positions.
pub proof fn lemma_pick_decisions<A>(s: Seq<A>, k1: Seq<bool>, k2: Seq<bool>, want: bool)
    requires
        forall|i: int| 0 <= i < s.len() ==> k1[i] == k2[i],
    ensures
        pick(s, k1, want) == pick(s, k2, want),
    decreases s.len(),
{
    if s.len() > 0 {
        lemma_pick_decisions(s.drop_last(), k1, k2, want);
    }
}

/// One more decided element at the end of a list.
proof fn lemma_pick_step<A>(s: Seq<A>, keep: Seq<bool>, i: int, want: bool)
    requires
        0 <= i < s.len(),
        keep.len() > i,
    ensures
        pick(s.take(i + 1), keep, want) == if keep[i] == want {
            pick(s.take(i), keep, want).push(s[i])
        } else {
            pick(s.take(i), keep, want)
        },
{
    assert(s.take(i + 1).drop_last() =~= s.take(i));
}

/// Views of picked orders are the picked views.
proof fn lemma_views_of_push(orders: Seq<Order>, o: Order)
    ensures
        views_of(orders.push(o)) == views_of(orders).push(o@),
{
    assert(views_of(orders.push(o)) =~= views_of(orders).push(o@));
}


// ----------------------------------------------------------------
// State
// ----------------------------------------------------------------

/// The trading state: trades made, positions and quotes by instrument, and
/// the orders resting in the market.
#[derive(Debug, Clone)]
pub struct State {
    pub trades: Vec<Trade>,
    pub positions: InstrumentMap<Position>,
    pub market: InstrumentMap<MarketData>,
    pub open_orders: Vec<Order>,
}

/// The trading state as mathematical values: positions and quotes are maps
/// from instrument names.
#[verifier::ext_equal]
pub struct StateView {
    pub trades: Seq<Trade>,
    pub positions: Map<Seq<char>, Position>,
    pub market: Map<Seq<char>, MarketData>,
    pub open_orders: Seq<OrderView>,
}

impl View for State {
    type V = StateView;

    open spec fn view(&self) -> StateView {
        StateView {
            trades: self.trades@,
            positions: self.positions@,
            market: self.market@,
            open_orders: views_of(self.open_orders@),
        }
    }
}

impl StateView {
    /// No trades, positions, quotes or orders.
    pub open spec fn empty() -> StateView {
        StateView {
            trades: Seq::empty(),
            positions: Map::empty(),
            market: Map::empty(),
            open_orders: Seq::empty(),
        }
    }

    /// The quote of `cross` set to `quote`.
    pub open spec fn with_market(self, cross: Seq<char>, quote: MarketData) -> StateView {
        StateView { market: self.market.insert(cross, quote), ..self }
    }

    /// The position in the instrument of `p` set to `p`.
    pub open spec fn with_position(self, p: Position) -> StateView {
        StateView { positions: self.positions.insert(p.instrument@, p), ..self }
    }

    /// `t` added at the end of the trades.
    pub open spec fn with_trade(self, t: Trade) -> StateView {
        StateView { trades: self.trades.push(t), ..self }
    }

    /// `orders` added, in their order, after the open orders.
    pub open spec fn with_orders(self, orders: Seq<OrderView>) -> StateView {
        StateView { open_orders: self.open_orders + orders, ..self }
    }

    /// A trade of `qty` of `cross` at `price`, which also becomes the position in `cross`.
    pub open spec fn after_trade(self, cross: Instrument, qty: Quantity, price: Price) -> StateView {
        self.with_trade(Trade { instrument: cross, last_qty: qty, last_px: price }).with_position(
            Position { instrument: cross, last_qty: qty, last_px: price },
        )
    }

    /// Buying `qty` of `cross` at the market: a trade at the ask.
    pub open spec fn after_buy(self, cross: Instrument, qty: Quantity) -> StateView {
        self.after_trade(cross, qty, self.market[cross@].ask)
    }

    /// Selling `qty` of `cross` at the market: a trade of the opposite amount at the bid.
    pub open spec fn after_sell(self, cross: Instrument, qty: Quantity) -> StateView {
        self.after_trade(cross, Quantity(-qty.0 as i64), self.market[cross@].bid)
    }
}

/// The pair of exit orders placed with a buy: a take-profit sell at `target`
/// and a stop-loss sell at `stop`, each cancelling the other.
pub open spec fn exit_orders(
    take_profit_id: Uuid,
    stop_loss_id: Uuid,
    cross: Instrument,
    qty: Quantity,
    target: Price,
    stop: Price,
) -> Seq<OrderView> {
    oco_group(
        seq![
            OrderView {
                id: take_profit_id,
                side: Side::Sell,
                qty,
                instrument: cross,
                order_type: OrderType::Limit,
                px: target,
                oco_with: Seq::empty(),
            },
            OrderView {
                id: stop_loss_id,
                side: Side::Sell,
                qty,
                instrument: cross,
                order_type: OrderType::Stop,
                px: stop,
                oco_with: Seq::empty(),
            },
        ],
    )
}

impl State {
    /// The empty state.
    pub fn new() -> (r: Self)
        ensures
            r@ == StateView::empty(),
    {
        let r = State {
            trades: Vec::new(),
            positions: InstrumentMap::new(),
            market: InstrumentMap::new(),
            open_orders: Vec::new(),
        };
        assert(r@ =~= StateView::empty());
        r
    }
}

impl Default for State {
    fn default() -> (r: Self)
        ensures
            r@ == StateView::empty(),
    {
        State::new()
    }
}

// ----------------------------------------------------------------
// Market
// ----------------------------------------------------------------

/// The quote of `cross`, which must have been set.
pub fn get_market(state: &State, cross: &Instrument) -> (r: MarketData)
    requires
        state@.market.contains_key(cross@),
    ensures
        r == state@.market[cross@],
{
    state.market.get(cross).unwrap().clone()
}

/// The state with the quote of `cross` set to `bid` and `ask`.
pub fn set_market(state: State, cross: Instrument, bid: Price, ask: Price) -> (r: State)
    ensures
        r@ == state@.with_market(cross@, MarketData { bid, ask }),
{
    let ghost before = state@;
    let mut state = state;
    state.market.insert(cross, MarketData::new(bid, ask));
    assert(state@ =~= before.with_market(cross@, MarketData { bid, ask }));
    state
}


// ----------------------------------------------------------------
// Positions
// ----------------------------------------------------------------

/// The state with no positions.
pub fn clear_positions(state: State) -> (r: State)
    ensures
        r@ == (StateView { positions: Map::empty(), ..state@ }),
{
    let ghost before = state@;
    let mut state = state;
    state.positions.clear();
    assert(state@ =~= StateView { positions: Map::empty(), ..before });
    state
}

/// A copy of the positions.
pub fn get_positions(state: &State) -> (r: InstrumentMap<Position>)
    ensures
        r@ == state@.positions,
{
    let r = state.positions.clone();
    assert(r@ =~= state@.positions);
    r
}

/// The position in `instrument`, if there is one.
pub fn get_position(state: &State, instrument: &Instrument) -> (r: Option<Position>)
    ensures
        r == (if state@.positions.contains_key(instrument@) {
            Some(state@.positions[instrument@])
        } else {
            None
        }),
{
    match state.positions.get(instrument) {
        Some(p) => Some(p.clone()),
        None => None,
    }
}

/// The state with the position in `instrument` set to `qty` at `price`.
pub fn set_position(state: State, instrument: Instrument, qty: Quantity, price: Price) -> (r: State)
    ensures
        r@ == state@.with_position(Position { instrument, last_qty: qty, last_px: price }),
{
    let ghost before = state@;
    let mut state = state;
    let key = instrument.clone();
    state.positions.insert(key, Position::new(instrument, qty, price));
    assert(state@ =~= before.with_position(Position { instrument, last_qty: qty, last_px: price }));
    state
}

// ----------------------------------------------------------------
// Open orders
// ----------------------------------------------------------------

/// The state with no open orders.
pub fn clear_open_orders(state: State) -> (r: State)
    ensures
        r@ == (StateView { open_orders: Seq::empty(), ..state@ }),
{
    let ghost before = state@;
    let mut state = state;
    state.open_orders = Vec::new();
    assert(state@ =~= StateView { open_orders: Seq::empty(), ..before });
    state
}

/// The state without the open orders for which `pred` holds; the orders that
/// stay keep their order.
pub fn remove_open_orders<F>(state: State, pred: F) -> (r: State) where F: Fn(&Order) -> bool
    requires
        accepts_all(pred, state.open_orders@),
    ensures
        r.trades == state.trades,
        r.positions == state.positions,
        r.market == state.market,
        exists|keep: Seq<bool>|
            #[trigger] decided_by(pred, state.open_orders@, keep) && r.open_orders@ == pick(
                state.open_orders@,
                keep,
                false,
            ),
{
    let State { trades, positions, market, open_orders } = state;
    let ghost orig = open_orders@;
    let n = open_orders.len();
    // Turn the orders around, so that popping hands them out first to last.
    let mut rest = open_orders;
    let mut pending: Vec<Order> = Vec::new();
    while rest.len() > 0
        invariant
            n == orig.len(),
            rest@.len() <= n,
            rest@ == orig.take(rest@.len() as int),
            pending@.len() == n - rest@.len(),
            forall|k: int| 0 <= k < pending@.len() ==> pending@[k] == orig[n - 1 - k],
        decreases rest@.len(),
    {
        let o = rest.pop().unwrap();
        pending.push(o);
        assert(rest@ =~= orig.take(rest@.len() as int));
    }
    let mut kept: Vec<Order> = Vec::new();
    let ghost mut keep: Seq<bool> = Seq::empty();
    let mut i: usize = 0;
    while i < n
        invariant
            n == orig.len(),
            0 <= i <= n,
            pending@.len() == n - i,
            forall|k: int| 0 <= k < pending@.len() ==> pending@[k] == orig[n - 1 - k],
            keep.len() == i,
            accepts_all(pred, orig),
            forall|j: int| 0 <= j < i ==> call_ensures(pred, (&orig[j],), keep[j]),
            kept@ == pick(orig.take(i as int), keep, false),
        decreases n - i,
    {
        let o = pending.pop().unwrap();
        assert(o == orig[i as int]);
        let chosen = pred(&o);
        proof {
            let next = keep.push(chosen);
            lemma_pick_decisions(orig.take(i as int), keep, next, false);
            lemma_pick_step(orig, next, i as int, false);
            keep = next;
        }
        if !chosen {
            kept.push(o);
        }
        i = i + 1;
    }
    assert(orig.take(n as int) =~= orig);
    assert(decided_by(pred, orig, keep));
    State { trades, positions, market, open_orders: kept }
}

/// Copies of the open orders for which `pred` holds, in their order.
pub fn filter_open_orders<F>(state: &State, pred: F) -> (r: Vec<Order>) where F: Fn(&Order) -> bool
    requires
        accepts_all(pred, state.open_orders@),
    ensures
        exists|keep: Seq<bool>|
            #[trigger] decided_by(pred, state.open_orders@, keep) && views_of(r@) == views_of(
                pick(state.open_orders@, keep, true),
            ),
{
    let ghost orig = state.open_orders@;
    let n = state.open_orders.len();
    let mut chosen_orders: Vec<Order> = Vec::new();
    let ghost mut keep: Seq<bool> = Seq::empty();
    let mut i: usize = 0;
    while i < n
        invariant
            orig == state.open_orders@,
            n == orig.len(),
            0 <= i <= n,
            keep.len() == i,
            accepts_all(pred, orig),
            forall|j: int| 0 <= j < i ==> call_ensures(pred, (&orig[j],), keep[j]),
            views_of(chosen_orders@) == views_of(pick(orig.take(i as int), keep, true)),
        decreases n - i,
    {
        let o = &state.open_orders[i];
        let chosen = pred(o);
        proof {
            let next = keep.push(chosen);
            lemma_pick_decisions(orig.take(i as int), keep, next, true);
            lemma_pick_step(orig, next, i as int, true);
            keep = next;
        }
        if chosen {
            let c = o.clone();
            proof {
                lemma_views_of_push(chosen_orders@, c);
                lemma_views_of_push(pick(orig.take(i as int), keep, true), orig[i as int]);
            }
            chosen_orders.push(c);
        }
        i = i + 1;
    }
    assert(orig.take(n as int) =~= orig);
    assert(decided_by(pred, orig, keep));
    chosen_orders
}

/// The state with `orders` added, in their order, after the open orders.
pub fn submit_orders(state: State, orders: Vec<Order>) -> (r: State)
    ensures
        r@ == state@.with_orders(views_of(orders@)),
{
    let ghost before = state@;
    let mut state = state;
    let mut orders = orders;
    let ghost added = orders@;
    state.open_orders.append(&mut orders);
    assert(views_of(state.open_orders@) =~= before.open_orders + views_of(added));
    assert(state@ =~= before.with_orders(views_of(added)));
    state
}

/// The state with `a` and `b` added as a pair of orders that cancel each other.
pub fn submit_oco_orders(state: State, a: Order, b: Order) -> (r: State)
    ensures
        r@ == state@.with_orders(oco_group(seq![a@, b@])),
{
    let pair = vec![a, b];
    assert(views_of(pair@) =~= seq![a@, b@]);
    submit_orders(state, Order::make_oco(pair))
}

// ----------------------------------------------------------------
// Trades
// ----------------------------------------------------------------

/// The state with no trades.
pub fn clear_trades(state: State) -> (r: State)
    ensures
        r@ == (StateView { trades: Seq::empty(), ..state@ }),
{
    let ghost before = state@;
    let mut state = state;
    state.trades = Vec::new();
    assert(state@ =~= StateView { trades: Seq::empty(), ..before });
    state
}

/// A copy of the trades made, oldest first.
pub fn get_trades(state: &State) -> (r: Vec<Trade>)
    ensures
        r@ == state@.trades,
{
    let n = state.trades.len();
    let mut r: Vec<Trade> = Vec::new();
    let mut i: usize = 0;
    while i < n
        invariant
            n == state.trades@.len(),
            0 <= i <= n,
            r@ =~= state.trades@.take(i as int),
        decreases n - i,
    {
        r.push(state.trades[i].clone());
        i = i + 1;
    }
    assert(r@ =~= state.trades@);
    r
}

/// The state with a trade of `qty` of `instrument` at `price` recorded after the others.
pub fn register_trade(state: State, instrument: Instrument, qty: Quantity, price: Price) -> (r: State)
    ensures
        r@ == state@.with_trade(Trade { instrument, last_qty: qty, last_px: price }),
{
    let ghost before = state@;
    let mut state = state;
    state.trades.push(Trade::new(instrument, qty, price));
    assert(state@ =~= before.with_trade(Trade { instrument, last_qty: qty, last_px: price }));
    state
}

/// Records a trade of `qty` of `cross` at `price` and makes it the position in `cross`.
fn trade(state: State, cross: Instrument, qty: Quantity, price: Price) -> (r: State)
    ensures
        r@ == state@.after_trade(cross, qty, price),
{
    let ghost before = state@;
    let mut state = state;
    state.trades.push(Trade::new(cross.clone(), qty, price));
    let key = cross.clone();
    state.positions.insert(key, Position::new(cross, qty, price));
    assert(state@ =~= before.after_trade(cross, qty, price));
    state
}

/// Buys `qty` of `cross` at the market, that is at its ask.
pub fn buy(state: State, cross: Instrument, qty: Quantity) -> (r: State)
    requires
        state@.market.contains_key(cross@),
    ensures
        r@ == state@.after_buy(cross, qty),
        r@.trades == state@.trades.push(
            Trade { instrument: cross, last_qty: qty, last_px: state@.market[cross@].ask },
        ),
        r@.positions.contains_key(cross@),
        r@.positions[cross@] == (Position {
            instrument: cross,
            last_qty: qty,
            last_px: state@.market[cross@].ask,
        }),
        forall|k: Seq<char>|
            k != cross@ ==> (#[trigger] r@.positions.contains_key(k)
                == state@.positions.contains_key(k) && r@.positions[k] == state@.positions[k]),
        r@.market == state@.market,
        r@.open_orders == state@.open_orders,
{
    let market_data = get_market(&state, &cross);
    let price = market_data.ask;
    trade(state, cross, qty, price)
}

/// Buys `qty` of `cross` at the market and places two exit orders that cancel
/// each other: a sell at `target` (limit) and a sell at `stop` (stop).
pub fn buy_with_orders(
    state: State,
    cross: Instrument,
    qty: Quantity,
    target: Price,
    stop: Price,
) -> (r: State)
    requires
        state@.market.contains_key(cross@),
    ensures
        r@.open_orders.len() == state@.open_orders.len() + 2,
        r@ == state@.after_buy(cross, qty).with_orders(
            exit_orders(
                r@.open_orders[state@.open_orders.len() as int].id,
                r@.open_orders[state@.open_orders.len() + 1int].id,
                cross,
                qty,
                target,
                stop,
            ),
        ),
        r@.trades == state@.trades.push(
            Trade { instrument: cross, last_qty: qty, last_px: state@.market[cross@].ask },
        ),
        r@.positions.contains_key(cross@),
        r@.positions[cross@] == (Position {
            instrument: cross,
            last_qty: qty,
            last_px: state@.market[cross@].ask,
        }),
        forall|k: Seq<char>|
            k != cross@ ==> (#[trigger] r@.positions.contains_key(k)
                == state@.positions.contains_key(k) && r@.positions[k] == state@.positions[k]),
        r@.market == state@.market,
        r@.open_orders.take(state@.open_orders.len() as int) == state@.open_orders,
{
    let ghost before = state@;
    let take_profit = Order::new(Side::Sell, qty, cross.clone(), OrderType::Limit, target);
    let stop_loss = Order::new(Side::Sell, qty, cross.clone(), OrderType::Stop, stop);
    let ghost tp_id = take_profit.id;
    let ghost sl_id = stop_loss.id;

    let market_data = get_market(&state, &cross);
    let price = market_data.ask;

    let state = trade(state, cross, qty, price);

    let pair = vec![take_profit, stop_loss];
    let oco_orders = Order::make_oco(pair);
    let r = submit_orders(state, oco_orders);
    proof {
        let exits = exit_orders(tp_id, sl_id, cross, qty, target, stop);
        assert(views_of(pair@) =~= seq![
            OrderView {
                id: tp_id,
                side: Side::Sell,
                qty,
                instrument: cross,
                order_type: OrderType::Limit,
                px: target,
                oco_with: Seq::empty(),
            },
            OrderView {
                id: sl_id,
                side: Side::Sell,
                qty,
                instrument: cross,
                order_type: OrderType::Stop,
                px: stop,
                oco_with: Seq::empty(),
            },
        ]);
        assert(r@.open_orders =~= before.open_orders + exits);
        assert(r@.open_orders[before.open_orders.len() as int].id == tp_id);
        assert(r@.open_orders[before.open_orders.len() + 1int].id == sl_id);
    }
    r
}

/// Sells `qty` of `cross` at the market, that is at its bid; the trade and the
/// position carry the opposite amount.
pub fn sell(state: State, cross: Instrument, qty: Quantity) -> (r: State)
    requires
        state@.market.contains_key(cross@),
        qty.0 != i64::MIN,
    ensures
        r@ == state@.after_sell(cross, qty),
        r@.trades == state@.trades.push(
            Trade {
                instrument: cross,
                last_qty: Quantity(-qty.0 as i64),
                last_px: state@.market[cross@].bid,
            },
        ),
        r@.trades.last().last_qty.0 == -qty.0,
        r@.positions.contains_key(cross@),
        r@.positions[cross@] == (Position {
            instrument: cross,
            last_qty: Quantity(-qty.0 as i64),
            last_px: state@.market[cross@].bid,
        }),
        r@.positions[cross@].last_qty.0 == -qty.0,
        forall|k: Seq<char>|
            k != cross@ ==> (#[trigger] r@.positions.contains_key(k)
                == state@.positions.contains_key(k) && r@.positions[k] == state@.positions[k]),
        r@.market == state@.market,
        r@.open_orders == state@.open_orders,
{
    let market_data = get_market(&state, &cross);
    let price = market_data.bid;
    trade(state, cross, std::ops::Neg::neg(qty), price)
}

} // verus!
