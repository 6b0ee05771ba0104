use tokio::sync::mpsc::Sender;
use vstd::prelude::*;

use crate::engine::check_balance::KeeperCall;
use crate::engine::create_order::{
    draw_order_id, engine_model, order_outcome, place_order_with_id, EngineModel, MarginReplies,
};
use crate::engine::position::positions_model;
use crate::engine::model::{book_consistent, side_model};
use crate::engine::position::abs;
use crate::engine::types::{CreateOrderResponse, EngineError, Fill, Order, OrderBook, OrderSide, OrderType, Position};
use crate::table::Table;
use crate::types::types::{BalanceRequest, IncomingOrder};

verus! {

/// Whether `position` is due for liquidation at `index_price`: a long once
/// the index has fallen to its liquidation price or below, a short (or an
/// empty position) once the index has risen to it or above.
pub open spec fn liquidation_due(position: Position, index_price: u64) -> bool {
    if position.size <= 0 {
        index_price >= position.liquidation_price
    } else {
        index_price <= position.liquidation_price
    }
}

/// The market order that closes the position `p` of `user`: a sell for a
/// long, a buy otherwise, for the whole size, at `market_price`.
pub open spec fn closing_order(user: String, p: Position, market_price: u64) -> IncomingOrder {
    IncomingOrder {
        user_id: user,
        order_type: OrderType::Market,
        order_side: if p.size > 0 { OrderSide::Sell } else { OrderSide::Buy },
        symbol: p.symbol,
        size: abs(p.size as int) as u64,
        price: market_price,
        leverage: p.leverage,
        slippage: 2,
    }
}

/// The closing orders for the positions in `items` that are due, in order.
pub open spec fn due_orders(items: Seq<(String, Position)>, index_price: u64, market_price: u64) -> Seq<IncomingOrder>
    decreases items.len(),
{
    if items.len() == 0 {
        Seq::empty()
    } else {
        let prev = due_orders(items.drop_last(), index_price, market_price);
        let (user, p) = items.last();
        if liquidation_due(p, index_price) {
            prev.push(closing_order(user, p, market_price))
        } else {
            prev
        }
    }
}

/// Whether `position` is due for liquidation at `index_price`.
fn should_liquidate(position: &Position, index_price: u64) -> (due: bool)
    ensures
        due == liquidation_due(*position, index_price),
{
    if position.size <= 0 {
        if index_price >= position.liquidation_price {
            return true;
        } else {
            return false;
        }
    } else {
        if index_price <= position.liquidation_price {
            return true;
        } else {
            return false;
        }
    }
}

/// The closing orders for every position due for liquidation at
/// `index_price`, in the order the positions are stored.
pub fn liquidation_orders(positions: &Table<Position>, index_price: u64, market_price: u64) -> (orders: Vec<IncomingOrder>)
    ensures
        orders@ == due_orders(positions.items(), index_price, market_price),
{
    let items = positions.as_slice();
    let mut liquid_orders: Vec<IncomingOrder> = Vec::new();
    let mut i: usize = 0;
    while i < items.len()
        invariant
            items@ == positions.items(),
            i <= items@.len(),
            liquid_orders@ == due_orders(items@.take(i as int), index_price, market_price),
        decreases items@.len() - i,
    {
        assert(items@.take(i + 1).drop_last() =~= items@.take(i as int));
        let position = &items[i].1;
        if should_liquidate(position, index_price) {
            let side = if position.size > 0 {
                OrderSide::Sell
            } else {
                OrderSide::Buy
            };
            let size: u64 = if position.size < 0 {
                (-(position.size as i128)) as u64
            } else {
                position.size as u64
            };
            liquid_orders.push(
                IncomingOrder {
                    user_id: items[i].0.clone(),
                    order_type: OrderType::Market,
                    order_side: side,
                    symbol: position.symbol.clone(),
                    size,
                    price: market_price,
                    leverage: position.leverage,
                    slippage: 2,
                },
            );
        }
        i = i + 1;
    }
    assert(items@.take(i as int) =~= items@);
    liquid_orders
}

/// Step `k` of a run of placements: the engine `models[k]`, whose positions
/// are `raws[k]`, goes to `models[k + 1]` by placing `placed[k]`.
pub open spec fn placement_step(
    models: Seq<EngineModel>,
    raws: Seq<Map<Seq<char>, Position>>,
    placed: Seq<IncomingOrder>,
    k: int,
) -> bool {
    &&& positions_model(raws[k]) == models[k].positions
    &&& exists|r: Result<CreateOrderResponse, EngineError>, id: Seq<char>, posted: Seq<KeeperCall>, replies: MarginReplies|
        #[trigger] order_outcome(models[k], models[k + 1], raws[k], placed[k], id, posted, replies, r)
}

/// `models` (with positions `raws`) is a run of the engine that places the
/// orders of `placed` one after the other, each as `create_order` says.
pub open spec fn placed_in_turn(
    models: Seq<EngineModel>,
    raws: Seq<Map<Seq<char>, Position>>,
    placed: Seq<IncomingOrder>,
) -> bool {
    &&& models.len() == placed.len() + 1
    &&& raws.len() == models.len()
    &&& forall|k: int| 0 <= k < placed.len() ==> #[trigger] placement_step(models, raws, placed, k)
}

/// The engine `m0`, whose positions are `p0`, ends in `m1`, with positions
/// `p1`, by placing the orders of `placed` one after the other.
pub open spec fn liquidation_run(
    m0: EngineModel,
    p0: Map<Seq<char>, Position>,
    m1: EngineModel,
    p1: Map<Seq<char>, Position>,
    placed: Seq<IncomingOrder>,
) -> bool {
    exists|models: Seq<EngineModel>, raws: Seq<Map<Seq<char>, Position>>|
        {
            &&& #[trigger] placed_in_turn(models, raws, placed)
            &&& models[0] == m0
            &&& raws[0] == p0
            &&& models.last() == m1
            &&& raws.last() == p1
        }
}

/// A copy of an incoming order.
fn copy_incoming(o: &IncomingOrder) -> (c: IncomingOrder)
    ensures
        c == *o,
{
    IncomingOrder {
        user_id: o.user_id.clone(),
        order_type: o.order_type,
        order_side: o.order_side,
        symbol: o.symbol.clone(),
        size: o.size,
        price: o.price,
        leverage: o.leverage,
        slippage: o.slippage,
    }
}

/// Closes, through `create_order`, every position due for liquidation at
/// `index_price`, with market orders at `market_price`: the closing orders of
/// `liquidation_orders` are placed one after the other, each as
/// `create_order` says, and the engine stays consistent.
pub fn liquidation(
    index_price: u64,
    positions: &mut Table<Position>,
    orders: &mut Table<Order>,
    fills: &mut Table<Vec<Fill>>,
    book: &mut OrderBook,
    market_price: u64,
    balance_tx: &Sender<BalanceRequest>,
)
    requires
        old(orders).wf(),
        old(positions).wf(),
        old(fills).wf(),
        book_consistent(old(orders)@, side_model(old(book).asks), side_model(old(book).bids)),
    ensures
        final(orders).wf(),
        final(positions).wf(),
        final(fills).wf(),
        book_consistent(final(orders)@, side_model(final(book).asks), side_model(final(book).bids)),
        liquidation_run(
            engine_model(*old(orders), *old(book), *old(positions), *old(fills)),
            old(positions)@,
            engine_model(*final(orders), *final(book), *final(positions), *final(fills)),
            final(positions)@,
            due_orders(old(positions).items(), index_price, market_price),
        ),
{
    let liquid_orders = liquidation_orders(positions, index_price, market_price);
    let ghost m0 = engine_model(*orders, *book, *positions, *fills);
    let ghost mut models: Seq<EngineModel> = seq![m0];
    let ghost p0 = positions@;
    let ghost mut raws: Seq<Map<Seq<char>, Position>> = seq![p0];
    let mut i: usize = 0;
    while i < liquid_orders.len()
        invariant
            orders.wf(),
            positions.wf(),
            fills.wf(),
            book_consistent(orders@, side_model(book.asks), side_model(book.bids)),
            i <= liquid_orders@.len(),
            placed_in_turn(models, raws, liquid_orders@.take(i as int)),
            models[0] == m0,
            raws[0] == p0,
            models.last() == engine_model(*orders, *book, *positions, *fills),
            raws.last() == positions@,
        decreases liquid_orders@.len() - i,
    {
        let order = copy_incoming(&liquid_orders[i]);
        let ghost before = engine_model(*orders, *book, *positions, *fills);
        let ghost raw_before = positions@;
        let id = draw_order_id(orders);
        let ghost fresh = id@;
        let (r, posted, replies) = place_order_with_id(id, order, orders, book, positions, fills, balance_tx);
        proof {
            let placed = liquid_orders@.take(i + 1);
            let nm = models.push(engine_model(*orders, *book, *positions, *fills));
            let nr = raws.push(positions@);
            assert(placed.drop_last() =~= liquid_orders@.take(i as int));
            assert forall|k: int| 0 <= k < placed.len() implies #[trigger] placement_step(nm, nr, placed, k) by {
                if k < i {
                    assert(placement_step(models, raws, liquid_orders@.take(i as int), k));
                    assert(nm[k] == models[k] && nm[k + 1] == models[k + 1] && nr[k] == raws[k]);
                } else {
                    assert(nm[k] == before && nr[k] == raw_before);
                    assert(order_outcome(nm[k], nm[k + 1], nr[k], placed[k], fresh, posted@, replies@, r));
                }
            }
            models = nm;
            raws = nr;
        }
        i = i + 1;
    }
    assert(liquid_orders@.take(i as int) =~= liquid_orders@);
}

} // verus!
