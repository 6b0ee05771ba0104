use std::collections::{BTreeMap, VecDeque};
use vstd::prelude::*;

use crate::engine::types::{Fill, Order, OrderSide, OrderStatus, RestingOrder};

verus! {

/// Price levels of one side of the book, each a queue in arrival order.
pub open spec fn side_model(side: BTreeMap<u64, VecDeque<RestingOrder>>) -> Map<u64, Seq<RestingOrder>> {
    side@.map_values(|q: VecDeque<RestingOrder>| q@)
}

/// `p` is the level an incoming order meets first: the lowest ask for a buy
/// (`ascending`), the highest bid for a sell.
pub open spec fn is_best(levels: Map<u64, Seq<RestingOrder>>, p: u64, ascending: bool) -> bool {
    &&& levels.dom().contains(p)
    &&& forall|q: u64| #[trigger] levels.dom().contains(q) ==> if ascending { p <= q } else { q <= p }
}

/// The level an incoming order meets first.
pub open spec fn best_price(levels: Map<u64, Seq<RestingOrder>>, ascending: bool) -> u64 {
    choose|p: u64| is_best(levels, p, ascending)
}

/// Whether a level at `price` is within the `limit` of an incoming buy
/// (`ascending`) or sell.
pub open spec fn crosses(price: u64, limit: u64, ascending: bool) -> bool {
    if ascending {
        price <= limit
    } else {
        price >= limit
    }
}

/// One execution: `qty` units against the resting order `maker`, as it stood
/// before the execution.
pub struct Trade {
    pub maker: RestingOrder,
    pub qty: u64,
}

/// What sweeping a book side leaves behind: the levels, the quantity still
/// unmatched, and the executions in the order they happened.
pub struct SweepOutcome {
    pub levels: Map<u64, Seq<RestingOrder>>,
    pub remaining: nat,
    pub trades: Seq<Trade>,
}

/// Matches `qty` against one level, oldest order first. An order that is
/// used up leaves the queue; the first one that is not ends the sweep.
pub open spec fn level_sweep(level: Seq<RestingOrder>, qty: nat) -> (Seq<RestingOrder>, nat, Seq<Trade>)
    decreases level.len(),
{
    if qty == 0 || level.len() == 0 {
        (level, qty, Seq::empty())
    } else {
        let front = level[0];
        let m: u64 = if qty < front.remaining_qty { qty as u64 } else { front.remaining_qty };
        let t = Trade { maker: front, qty: m };
        if front.remaining_qty == m {
            let rest = level_sweep(level.drop_first(), (qty - m) as nat);
            (rest.0, rest.1, seq![t] + rest.2)
        } else {
            (
                level.update(0, RestingOrder { remaining_qty: (front.remaining_qty - m) as u64, ..front }),
                (qty - m) as nat,
                seq![t],
            )
        }
    }
}

/// Price-time priority matching of `qty` against a book side: best level
/// first while it crosses the `limit`, each level oldest order first; a level
/// that is used up leaves the book.
pub open spec fn book_sweep(levels: Map<u64, Seq<RestingOrder>>, qty: nat, limit: u64, ascending: bool) -> SweepOutcome
    decreases levels.dom().len(),
{
    if qty == 0 || !levels.dom().finite() || levels.dom().len() == 0 {
        SweepOutcome { levels, remaining: qty, trades: Seq::empty() }
    } else {
        let p = best_price(levels, ascending);
        if !crosses(p, limit, ascending) {
            SweepOutcome { levels, remaining: qty, trades: Seq::empty() }
        } else {
            let r = level_sweep(levels[p], qty);
            if r.0.len() == 0 {
                proof {
                    lemma_best_exists(levels, ascending);
                }
                let rest = book_sweep(levels.remove(p), r.1, limit, ascending);
                SweepOutcome { levels: rest.levels, remaining: rest.remaining, trades: r.2 + rest.trades }
            } else {
                SweepOutcome { levels: levels.insert(p, r.0), remaining: r.1, trades: r.2 }
            }
        }
    }
}

pub proof fn lemma_extreme_exists(s: Set<u64>, ascending: bool)
    requires
        s.finite(),
        s.len() > 0,
    ensures
        exists|p: u64| #[trigger] s.contains(p) && forall|q: u64| #[trigger] s.contains(q) ==> if ascending { p <= q } else { q <= p },
    decreases s.len(),
{
    let x = s.choose();
    assert(s.contains(x));
    if s.len() == 1 {
        assert forall|q: u64| #[trigger] s.contains(q) implies if ascending { x <= q } else { q <= x } by {
            if q != x {
                assert(s.remove(x).contains(q));
                assert(s.remove(x).len() == 0);
            }
        }
    } else {
        let t = s.remove(x);
        lemma_extreme_exists(t, ascending);
        let y = choose|p: u64| #[trigger] t.contains(p) && forall|q: u64| #[trigger] t.contains(q) ==> if ascending { p <= q } else { q <= p };
        let b = if ascending { if x <= y { x } else { y } } else { if y <= x { x } else { y } };
        assert(s.contains(b));
        assert forall|q: u64| #[trigger] s.contains(q) implies if ascending { b <= q } else { q <= b } by {
            if q != x {
                assert(t.contains(q));
            }
        }
    }
}

pub proof fn lemma_best_exists(levels: Map<u64, Seq<RestingOrder>>, ascending: bool)
    requires
        levels.dom().finite(),
        levels.dom().len() > 0,
    ensures
        is_best(levels, best_price(levels, ascending), ascending),
{
    lemma_extreme_exists(levels.dom(), ascending);
    let p = choose|p: u64| #[trigger] levels.dom().contains(p) && forall|q: u64| #[trigger] levels.dom().contains(q) ==> if ascending { p <= q } else { q <= p };
    assert(is_best(levels, p, ascending));
}

pub proof fn lemma_best_unique(levels: Map<u64, Seq<RestingOrder>>, p: u64, ascending: bool)
    requires
        is_best(levels, p, ascending),
    ensures
        best_price(levels, ascending) == p,
{
    let q = best_price(levels, ascending);
    assert(is_best(levels, q, ascending));
    assert(levels.dom().contains(q));
    assert(levels.dom().contains(p));
}

/// A level that is not used up ends the sweep with nothing left to match.
pub proof fn lemma_level_sweep_stops(level: Seq<RestingOrder>, qty: nat)
    ensures
        level_sweep(level, qty).0.len() > 0 ==> level_sweep(level, qty).1 == 0,
        level_sweep(level, qty).1 <= qty,
    decreases level.len(),
{
    if qty == 0 || level.len() == 0 {
    } else {
        let front = level[0];
        let m: u64 = if qty < front.remaining_qty { qty as u64 } else { front.remaining_qty };
        if front.remaining_qty == m {
            lemma_level_sweep_stops(level.drop_first(), (qty - m) as nat);
        }
    }
}

/// Prices order as integers do, which the book's ordered maps rely on.
pub proof fn lemma_prices_ordered()
    ensures
        vstd::laws_cmp::obeys_cmp::<u64>(),
{
    broadcast use vstd::laws_cmp::group_laws_cmp;
}

/// Sweeping never leaves more unmatched than it started with.
pub proof fn lemma_sweep_remaining(levels: Map<u64, Seq<RestingOrder>>, qty: nat, limit: u64, ascending: bool)
    ensures
        book_sweep(levels, qty, limit, ascending).remaining <= qty,
    decreases levels.dom().len(),
{
    if qty == 0 || !levels.dom().finite() || levels.dom().len() == 0 {
    } else {
        let p = best_price(levels, ascending);
        if crosses(p, limit, ascending) {
            lemma_level_sweep_stops(levels[p], qty);
            let r = level_sweep(levels[p], qty);
            if r.0.len() == 0 {
                lemma_best_exists(levels, ascending);
                lemma_sweep_remaining(levels.remove(p), r.1, limit, ascending);
            }
        }
    }
}

/// An order after `q` more units of it were executed.
pub open spec fn after_fill(o: Order, q: u64) -> Order {
    let rem = (o.remaining_qty - q) as u64;
    Order {
        filled_qty: (o.filled_qty + q) as u64,
        remaining_qty: rem,
        status: if rem == 0 {
            OrderStatus::Filled
        } else if rem < o.size {
            OrderStatus::PartiallyFilled
        } else {
            o.status
        },
        ..o
    }
}

/// The order records after execution `t` of the order keyed `taker`.
pub open spec fn settle_orders(orders: Map<Seq<char>, Order>, taker: Seq<char>, t: Trade) -> Map<Seq<char>, Order> {
    let o1 = orders.insert(taker, after_fill(orders[taker], t.qty));
    o1.insert(t.maker.order_id@, after_fill(o1[t.maker.order_id@], t.qty))
}

/// The order records after all executions `ts` of the order keyed `taker`.
pub open spec fn settle_all_orders(orders: Map<Seq<char>, Order>, taker: Seq<char>, ts: Seq<Trade>) -> Map<Seq<char>, Order>
    decreases ts.len(),
{
    if ts.len() == 0 {
        orders
    } else {
        settle_orders(settle_all_orders(orders, taker, ts.drop_last()), taker, ts.last())
    }
}

/// A fill without its timestamp.
pub struct FillRecord {
    pub order_id: Seq<char>,
    pub maker_id: Seq<char>,
    pub taker_id: Seq<char>,
    pub price: u64,
    pub qty: u64,
    pub symbol: Seq<char>,
    pub consumed: bool,
}

impl View for Fill {
    type V = FillRecord;

    open spec fn view(&self) -> FillRecord {
        FillRecord {
            order_id: self.order_id@,
            maker_id: self.maker_id@,
            taker_id: self.taker_id@,
            price: self.price,
            qty: self.qty,
            symbol: self.symbol@,
            consumed: self.consumed,
        }
    }
}

/// The fills of every order, without timestamps.
pub open spec fn fills_model(fills: Map<Seq<char>, Vec<Fill>>) -> Map<Seq<char>, Seq<FillRecord>> {
    fills.map_values(|v: Vec<Fill>| v@.map_values(|f: Fill| f@))
}

/// The fills recorded for `k`, none when `k` has no entry.
pub open spec fn history(fills: Map<Seq<char>, Seq<FillRecord>>, k: Seq<char>) -> Seq<FillRecord> {
    if fills.contains_key(k) {
        fills[k]
    } else {
        Seq::empty()
    }
}

/// The fills after execution `t` of the order keyed `taker`: one record for
/// the taker and one for the maker, both at the maker's price.
pub open spec fn settle_fills(fills: Map<Seq<char>, Seq<FillRecord>>, taker: Seq<char>, t: Trade) -> Map<Seq<char>, Seq<FillRecord>> {
    let maker = t.maker.order_id@;
    let taker_side = FillRecord {
        order_id: taker,
        maker_id: maker,
        taker_id: taker,
        price: t.maker.price,
        qty: t.qty,
        symbol: t.maker.symbol@,
        consumed: false,
    };
    let maker_side = FillRecord { order_id: maker, ..taker_side };
    let f1 = fills.insert(taker, history(fills, taker).push(taker_side));
    f1.insert(maker, history(f1, maker).push(maker_side))
}

/// The fills after all executions `ts` of the order keyed `taker`.
pub open spec fn settle_all_fills(fills: Map<Seq<char>, Seq<FillRecord>>, taker: Seq<char>, ts: Seq<Trade>) -> Map<Seq<char>, Seq<FillRecord>>
    decreases ts.len(),
{
    if ts.len() == 0 {
        fills
    } else {
        settle_fills(settle_all_fills(fills, taker, ts.drop_last()), taker, ts.last())
    }
}

/// Executions only add fills: every order with fills keeps an entry.
pub proof fn lemma_settled_fills_keep_keys(fills: Map<Seq<char>, Seq<FillRecord>>, taker: Seq<char>, ts: Seq<Trade>, k: Seq<char>)
    requires
        fills.contains_key(k),
    ensures
        settle_all_fills(fills, taker, ts).contains_key(k),
    decreases ts.len(),
{
    if ts.len() > 0 {
        lemma_settled_fills_keep_keys(fills, taker, ts.drop_last(), k);
    }
}

/// Every order in `levels` is recorded with the same remaining quantity, on
/// side `side`.
pub open spec fn side_backed(levels: Map<u64, Seq<RestingOrder>>, orders: Map<Seq<char>, Order>, side: OrderSide) -> bool {
    forall|p: u64, i: int|
        #![trigger levels[p][i]]
        levels.contains_key(p) && 0 <= i < levels[p].len() ==> {
            &&& orders.contains_key(levels[p][i].order_id@)
            &&& orders[levels[p][i].order_id@].remaining_qty == levels[p][i].remaining_qty
            &&& orders[levels[p][i].order_id@].order_side == side
        }
}

/// No order id rests twice in `levels`.
pub open spec fn resting_ids_distinct(levels: Map<u64, Seq<RestingOrder>>) -> bool {
    forall|p1: u64, i1: int, p2: u64, i2: int|
        #![trigger levels[p1][i1], levels[p2][i2]]
        levels.contains_key(p1) && levels.contains_key(p2) && 0 <= i1 < levels[p1].len() && 0 <= i2
            < levels[p2].len() && (p1 != p2 || i1 != i2) ==> levels[p1][i1].order_id@ != levels[p2][i2].order_id@
}

/// Every order record has executed and open quantities adding up to its size.
pub open spec fn orders_balanced(orders: Map<Seq<char>, Order>) -> bool {
    forall|k: Seq<char>|
        #[trigger] orders.contains_key(k) ==> orders[k].filled_qty + orders[k].remaining_qty == orders[k].size
}

/// Order id `id` does not rest in `levels`.
pub open spec fn not_resting(levels: Map<u64, Seq<RestingOrder>>, id: Seq<char>) -> bool {
    forall|p: u64, i: int| #![trigger levels[p][i]] levels.contains_key(p) && 0 <= i < levels[p].len() ==> levels[p][i].order_id@ != id
}

/// The fills with an entry, possibly empty, for `k`.
pub open spec fn opened(fills: Map<Seq<char>, Seq<FillRecord>>, k: Seq<char>) -> Map<Seq<char>, Seq<FillRecord>> {
    if fills.contains_key(k) {
        fills
    } else {
        fills.insert(k, Seq::empty())
    }
}

/// What the engine keeps true of its order records and its book.
pub open spec fn book_consistent(
    orders: Map<Seq<char>, Order>,
    asks: Map<u64, Seq<RestingOrder>>,
    bids: Map<u64, Seq<RestingOrder>>,
) -> bool {
    &&& orders_balanced(orders)
    &&& side_backed(asks, orders, OrderSide::Sell)
    &&& side_backed(bids, orders, OrderSide::Buy)
    &&& resting_ids_distinct(asks)
    &&& resting_ids_distinct(bids)
}

} // verus!
