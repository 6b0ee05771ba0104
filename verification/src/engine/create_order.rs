use tokio::sync::mpsc::Sender;
use vstd::prelude::*;

use crate::channel::{reply_channel, wait_reply};
use crate::engine::core_matching::{core_buy_logic, core_sell_logic};
use crate::engine::helper::{
    acknowledged, acknowledgement, add_in_bids, add_in_sorts, get_time, margin_verdict, margin_verdict_of, queued,
    raises_risk, risk_engine, risk_in_range,
};
use crate::engine::model::{
    book_consistent, book_sweep, fills_model, not_resting, opened, orders_balanced, settle_all_fills,
    settle_all_orders, side_backed, side_model, FillRecord,
};
use crate::engine::check_balance::{send_to_keeper, KeeperCall};
use crate::engine::position::{
    apply_change, consumed, op_calls, position_plan, positions_model, settle_position, PositionRecord,
};
use crate::engine::types::{
    BalanceResponse, CreateOrderResponse, EngineError, Fill, Order, OrderBook, OrderSide, OrderStatus, OrderType,
    Position, RestingOrder,
};
use crate::table::Table;
use crate::types::types::{BalanceRequest, IncomingOrder};

verus! {

/// The state of one market's engine, without timestamps.
pub struct EngineModel {
    pub orders: Map<Seq<char>, Order>,
    pub asks: Map<u64, Seq<RestingOrder>>,
    pub bids: Map<u64, Seq<RestingOrder>>,
    pub positions: Map<Seq<char>, PositionRecord>,
    pub fills: Map<Seq<char>, Seq<FillRecord>>,
}

pub open spec fn engine_model(
    orders: Table<Order>,
    book: OrderBook,
    positions: Table<Position>,
    fills: Table<Vec<Fill>>,
) -> EngineModel {
    EngineModel {
        orders: orders@,
        asks: side_model(book.asks),
        bids: side_model(book.bids),
        positions: positions_model(positions@),
        fills: fills_model(fills@),
    }
}

/// Matching of the recorded order `id` against the other side of the book,
/// then the change to its user's position when anything was executed. Also
/// gives the quantity left unmatched, or the arithmetic fault of the position
/// change.
pub open spec fn matched_stage(m: EngineModel, id: Seq<char>) -> (EngineModel, Result<u64, EngineError>) {
    let o = m.orders[id];
    let buy = o.order_side == OrderSide::Buy;
    let s = book_sweep(if buy { m.asks } else { m.bids }, o.size as nat, o.price, buy);
    let orders2 = settle_all_orders(m.orders, id, s.trades);
    let fills2 = settle_all_fills(opened(m.fills, id), id, s.trades);
    let rem = s.remaining as u64;
    let matched = EngineModel {
        orders: orders2,
        asks: if buy { s.levels } else { m.asks },
        bids: if buy { m.bids } else { s.levels },
        positions: m.positions,
        fills: fills2,
    };
    if rem != o.size {
        match position_plan(m.positions, fills2[id], orders2[id]) {
            None => (matched, Err(EngineError::ArithmeticError)),
            Some(plan) => (
                EngineModel {
                    positions: apply_change(m.positions, orders2[id].user_id@, plan.change),
                    fills: fills2.insert(id, consumed(fills2[id])),
                    ..matched
                },
                Ok(rem),
            ),
        }
    } else {
        (matched, Ok(rem))
    }
}

/// The requests the matching stage of `id` sends to the balance keeper: the
/// wallet movements of its position change, for its user, when anything was
/// executed.
pub open spec fn stage_calls(m: EngineModel, id: Seq<char>) -> Seq<KeeperCall> {
    let o = m.orders[id];
    let buy = o.order_side == OrderSide::Buy;
    let s = book_sweep(if buy { m.asks } else { m.bids }, o.size as nat, o.price, buy);
    let orders2 = settle_all_orders(m.orders, id, s.trades);
    let fills2 = settle_all_fills(opened(m.fills, id), id, s.trades);
    if s.remaining as u64 != o.size {
        match position_plan(m.positions, fills2[id], orders2[id]) {
            Some(plan) => op_calls(plan.ops, orders2[id].user_id@),
            None => Seq::empty(),
        }
    } else {
        Seq::empty()
    }
}

/// How an order of `size` units with `rem` left unmatched is reported.
pub open spec fn response_for(size: u64, rem: u64) -> CreateOrderResponse {
    CreateOrderResponse {
        success: true,
        filled_qty: (size - rem) as u64,
        remaining_qty: rem,
        order_status: if rem == size {
            OrderStatus::Open
        } else if rem > 0 {
            OrderStatus::PartiallyFilled
        } else {
            OrderStatus::Filled
        },
    }
}

/// The unmatched `rem` of a limit order `o` joins the back of its own side;
/// a market order, or a limit order with nothing left, does not rest.
pub open spec fn rested(m: EngineModel, o: Order, rem: u64) -> EngineModel {
    if o.order_type == OrderType::Limit && rem > 0 {
        let ro = RestingOrder {
            order_id: o.order_id,
            user_id: o.user_id,
            qty: o.size,
            price: o.price,
            remaining_qty: rem,
            symbol: o.symbol,
        };
        if o.order_side == OrderSide::Buy {
            EngineModel { bids: queued(m.bids, ro), ..m }
        } else {
            EngineModel { asks: queued(m.asks, ro), ..m }
        }
    } else {
        m
    }
}

/// The engine after it handles the recorded, untouched order `id`, and its
/// answer.
pub open spec fn placement(m: EngineModel, id: Seq<char>) -> (EngineModel, Result<CreateOrderResponse, EngineError>) {
    let o = m.orders[id];
    let (m2, r) = matched_stage(m, id);
    match r {
        Err(e) => (m2, Err(e)),
        Ok(rem) => (rested(m2, o, rem), Ok(response_for(o.size, rem))),
    }
}

/// What an order handed to the engine must satisfy before it is handled.
pub open spec fn ready_to_execute(orders: Map<Seq<char>, Order>, book: OrderBook, id: Seq<char>) -> bool {
    &&& book_consistent(orders, side_model(book.asks), side_model(book.bids))
    &&& orders.contains_key(id)
    &&& orders[id].order_id@ == id
    &&& orders[id].remaining_qty == orders[id].size
    &&& not_resting(side_model(book.asks), id)
    &&& not_resting(side_model(book.bids), id)
}

proof fn lemma_rest_keeps_consistency(
    orders: Map<Seq<char>, Order>,
    levels: Map<u64, Seq<RestingOrder>>,
    ro: RestingOrder,
    side: OrderSide,
)
    requires
        side_backed(levels, orders, side),
        crate::engine::model::resting_ids_distinct(levels),
        not_resting(levels, ro.order_id@),
        orders.contains_key(ro.order_id@),
        orders[ro.order_id@].remaining_qty == ro.remaining_qty,
        orders[ro.order_id@].order_side == side,
    ensures
        side_backed(queued(levels, ro), orders, side),
        crate::engine::model::resting_ids_distinct(queued(levels, ro)),
{
    let nl = queued(levels, ro);
    let p = ro.price;
    assert forall|q: u64, i: int| #![trigger nl[q][i]] nl.contains_key(q) && 0 <= i < nl[q].len() implies {
        &&& orders.contains_key(nl[q][i].order_id@)
        &&& orders[nl[q][i].order_id@].remaining_qty == nl[q][i].remaining_qty
        &&& orders[nl[q][i].order_id@].order_side == side
    } by {
        if q == p && i == nl[q].len() - 1 {
        } else {
            assert(nl[q][i] == levels[q][i]);
        }
    }
    assert forall|p1: u64, i1: int, p2: u64, i2: int|
        #![trigger nl[p1][i1], nl[p2][i2]]
        nl.contains_key(p1) && nl.contains_key(p2) && 0 <= i1 < nl[p1].len() && 0 <= i2 < nl[p2].len() && (p1
            != p2 || i1 != i2) implies nl[p1][i1].order_id@ != nl[p2][i2].order_id@ by {
        let last1 = p1 == p && i1 == nl[p1].len() - 1;
        let last2 = p2 == p && i2 == nl[p2].len() - 1;
        if !last1 {
            assert(nl[p1][i1] == levels[p1][i1]);
        }
        if !last2 {
            assert(nl[p2][i2] == levels[p2][i2]);
        }
    }
}

/// Matches the recorded order `order_id` and folds its executions into its
/// user's position; see `matched_stage`.
fn match_incoming(
    order_id: &String,
    book: &mut OrderBook,
    positions: &mut Table<Position>,
    orders: &mut Table<Order>,
    fills: &mut Table<Vec<Fill>>,
    balance_tx: &Sender<BalanceRequest>,
) -> (out: (Result<u64, EngineError>, Ghost<Seq<KeeperCall>>))
    requires
        old(orders).wf(),
        old(positions).wf(),
        old(fills).wf(),
        ready_to_execute(old(orders)@, *old(book), order_id@),
    ensures
        final(orders).wf(),
        final(positions).wf(),
        final(fills).wf(),
        book_consistent(final(orders)@, side_model(final(book).asks), side_model(final(book).bids)),
        out.1@ == stage_calls(engine_model(*old(orders), *old(book), *old(positions), *old(fills)), order_id@),
        (engine_model(*final(orders), *final(book), *final(positions), *final(fills)), out.0) == matched_stage(
            engine_model(*old(orders), *old(book), *old(positions), *old(fills)),
            order_id@,
        ),
        out.0 matches Ok(rem) ==> {
            &&& final(orders)@.contains_key(order_id@)
            &&& final(orders)@[order_id@].remaining_qty == rem
            &&& final(orders)@[order_id@].order_side == old(orders)@[order_id@].order_side
            &&& not_resting(side_model(final(book).asks), order_id@)
            &&& not_resting(side_model(final(book).bids), order_id@)
        },
{
    let (size, price, buy) = match orders.get(order_id.as_str()) {
        Some(ord) => (
            ord.size,
            ord.price,
            match ord.order_side {
                OrderSide::Buy => true,
                OrderSide::Sell => false,
            },
        ),
        None => {
            return (Err(EngineError::OrderNotFound), Ghost(Seq::empty()));
        },
    };
    let ghost m0 = engine_model(*orders, *book, *positions, *fills);
    let ghost o = orders@[order_id@];
    let rem: u64 = if buy {
        match core_buy_logic(size, price, book, orders, fills, order_id.clone()) {
            Ok(r) => r,
            Err(e) => {
                return (Err(e), Ghost(Seq::empty()));
            },
        }
    } else {
        match core_sell_logic(size, price, book, orders, fills, order_id.clone()) {
            Ok(r) => r,
            Err(e) => {
                return (Err(e), Ghost(Seq::empty()));
            },
        }
    };
    proof {
        let s = book_sweep(if buy { m0.asks } else { m0.bids }, o.size as nat, o.price, buy);
        crate::engine::model::lemma_sweep_remaining(if buy { m0.asks } else { m0.bids }, o.size as nat, o.price, buy);
        crate::engine::model::lemma_settled_fills_keep_keys(opened(m0.fills, order_id@), order_id@, s.trades, order_id@);
        assert(fills_model(fills@).contains_key(order_id@));
    }
    let mut posted: Ghost<Seq<KeeperCall>> = Ghost(Seq::empty());
    if rem != size {
        let (settled, sent) = settle_position(positions, fills, order_id, orders, balance_tx);
        posted = sent;
        match settled {
            Ok(()) => {},
            Err(e) => {
                return (Err(e), posted);
            },
        }
    }
    (Ok(rem), posted)
}

proof fn lemma_new_order_keeps_consistency(
    orders: Map<Seq<char>, Order>,
    asks: Map<u64, Seq<RestingOrder>>,
    bids: Map<u64, Seq<RestingOrder>>,
    id: Seq<char>,
    o: Order,
)
    requires
        book_consistent(orders, asks, bids),
        !orders.contains_key(id),
        o.filled_qty + o.remaining_qty == o.size,
    ensures
        book_consistent(orders.insert(id, o), asks, bids),
        not_resting(asks, id),
        not_resting(bids, id),
{
    let no = orders.insert(id, o);
    assert forall|p: u64, i: int| #![trigger asks[p][i]] asks.contains_key(p) && 0 <= i < asks[p].len() implies {
        &&& no.contains_key(asks[p][i].order_id@)
        &&& no[asks[p][i].order_id@].remaining_qty == asks[p][i].remaining_qty
        &&& no[asks[p][i].order_id@].order_side == OrderSide::Sell
    } by {
        assert(orders.contains_key(asks[p][i].order_id@));
    }
    assert forall|p: u64, i: int| #![trigger bids[p][i]] bids.contains_key(p) && 0 <= i < bids[p].len() implies {
        &&& no.contains_key(bids[p][i].order_id@)
        &&& no[bids[p][i].order_id@].remaining_qty == bids[p][i].remaining_qty
        &&& no[bids[p][i].order_id@].order_side == OrderSide::Buy
    } by {
        assert(orders.contains_key(bids[p][i].order_id@));
    }
    assert(orders_balanced(no));
}

/// The remainder of the recorded limit order `order_id` as it rests.
fn resting_from(order: &Order, remaining: u64) -> (ro: RestingOrder)
    ensures
        ro == (RestingOrder {
            order_id: order.order_id,
            user_id: order.user_id,
            qty: order.size,
            price: order.price,
            remaining_qty: remaining,
            symbol: order.symbol,
        }),
{
    RestingOrder {
        order_id: order.order_id.clone(),
        user_id: order.user_id.clone(),
        qty: order.size,
        price: order.price,
        remaining_qty: remaining,
        symbol: order.symbol.clone(),
    }
}

/// Reports an order of `size` units with `remaining` unmatched.
fn respond(size: u64, remaining: u64) -> (r: CreateOrderResponse)
    requires
        remaining <= size,
    ensures
        r == response_for(size, remaining),
{
    let status: OrderStatus;
    if remaining == size {
        status = OrderStatus::Open
    } else if remaining > 0 {
        status = OrderStatus::PartiallyFilled
    } else {
        status = OrderStatus::Filled
    }
    CreateOrderResponse { success: true, filled_qty: size - remaining, remaining_qty: remaining, order_status: status }
}

/// Handles the recorded limit order `order_id`: matches it, folds its
/// executions into its user's position, and queues what is left of it on
/// its own side of the book.
fn handle_limit_order(
    order_id: String,
    book: &mut OrderBook,
    positions: &mut Table<Position>,
    orders: &mut Table<Order>,
    fills: &mut Table<Vec<Fill>>,
    balance_tx: &Sender<BalanceRequest>,
) -> (out: (Result<CreateOrderResponse, EngineError>, Ghost<Seq<KeeperCall>>))
    requires
        old(orders).wf(),
        old(positions).wf(),
        old(fills).wf(),
        ready_to_execute(old(orders)@, *old(book), order_id@),
    ensures
        final(orders).wf(),
        final(positions).wf(),
        final(fills).wf(),
        book_consistent(final(orders)@, side_model(final(book).asks), side_model(final(book).bids)),
        (engine_model(*final(orders), *final(book), *final(positions), *final(fills)), out.0) == placement(
            engine_model(*old(orders), *old(book), *old(positions), *old(fills)),
            order_id@,
        ),
        out.1@ == stage_calls(engine_model(*old(orders), *old(book), *old(positions), *old(fills)), order_id@),
{
    let ghost m0 = engine_model(*orders, *book, *positions, *fills);
    let ghost o = orders@[order_id@];
    let (size, limit, buy, resting_template) = match orders.get(order_id.as_str()) {
        Some(ord) => (
            ord.size,
            ord.order_type == OrderType::Limit,
            ord.order_side == OrderSide::Buy,
            resting_from(ord, 0),
        ),
        None => {
            return (Err(EngineError::OrderNotFound), Ghost(Seq::empty()));
        },
    };
    let (matched, posted) = match_incoming(&order_id, book, positions, orders, fills, balance_tx);
    let rem: u64 = match matched {
        Ok(r) => r,
        Err(e) => {
            return (Err(e), posted);
        },
    };
    proof {
        crate::engine::model::lemma_sweep_remaining(if buy { m0.asks } else { m0.bids }, o.size as nat, o.price, buy);
    }
    if limit && rem > 0 {
        let resting_order = RestingOrder { remaining_qty: rem, ..resting_template };
        let ghost ob = *book;
        if buy {
            add_in_bids(book, resting_order);
            proof {
                lemma_rest_keeps_consistency(orders@, side_model(ob.bids), resting_order, OrderSide::Buy);
            }
        } else {
            add_in_sorts(book, resting_order);
            proof {
                lemma_rest_keeps_consistency(orders@, side_model(ob.asks), resting_order, OrderSide::Sell);
            }
        }
    }
    (Ok(respond(size, rem)), posted)
}

/// Handles the recorded market order `order_id`: matches it and folds its
/// executions into its user's position; nothing of it rests.
fn handle_market_order(
    order_id: String,
    book: &mut OrderBook,
    positions: &mut Table<Position>,
    orders: &mut Table<Order>,
    fills: &mut Table<Vec<Fill>>,
    balance_tx: &Sender<BalanceRequest>,
) -> (out: (Result<CreateOrderResponse, EngineError>, Ghost<Seq<KeeperCall>>))
    requires
        old(orders).wf(),
        old(positions).wf(),
        old(fills).wf(),
        ready_to_execute(old(orders)@, *old(book), order_id@),
        old(orders)@[order_id@].order_type == OrderType::Market,
    ensures
        final(orders).wf(),
        final(positions).wf(),
        final(fills).wf(),
        book_consistent(final(orders)@, side_model(final(book).asks), side_model(final(book).bids)),
        (engine_model(*final(orders), *final(book), *final(positions), *final(fills)), out.0) == placement(
            engine_model(*old(orders), *old(book), *old(positions), *old(fills)),
            order_id@,
        ),
        out.1@ == stage_calls(engine_model(*old(orders), *old(book), *old(positions), *old(fills)), order_id@),
{
    let ghost m0 = engine_model(*orders, *book, *positions, *fills);
    let ghost o = orders@[order_id@];
    let (size, buy) = match orders.get(order_id.as_str()) {
        Some(ord) => (ord.size, ord.order_side == OrderSide::Buy),
        None => {
            return (Err(EngineError::OrderNotFound), Ghost(Seq::empty()));
        },
    };
    let (matched, posted) = match_incoming(&order_id, book, positions, orders, fills, balance_tx);
    let rem: u64 = match matched {
        Ok(r) => r,
        Err(e) => {
            return (Err(e), posted);
        },
    };
    proof {
        crate::engine::model::lemma_sweep_remaining(if buy { m0.asks } else { m0.bids }, o.size as nat, o.price, buy);
    }
    (Ok(respond(size, rem)), posted)
}

/// Calls `uuid::Uuid::new_v4` and renders the id as text: a fresh random
/// order id. Nothing is claimed of the text, which is random.
#[verifier::external_body]
fn new_order_id() -> (id: String) {
    uuid::Uuid::new_v4().to_string()
}

/// Signed exposure of an incoming order: positive for a buy.
pub open spec fn signed_size(data: IncomingOrder) -> int {
    if data.order_side == OrderSide::Buy {
        data.size as int
    } else {
        -(data.size as int)
    }
}

/// The risk arithmetic of `data` against the positions would leave `i64`.
pub open spec fn admission_fault(positions: Map<Seq<char>, Position>, data: IncomingOrder) -> bool {
    data.size > i64::MAX || !risk_in_range(positions, signed_size(data) as i64, data.user_id@)
}

/// `data` adds to its user's risk, so its margin is checked and locked with
/// the balance keeper before it is recorded.
pub open spec fn needs_margin(positions: Map<Seq<char>, Position>, data: IncomingOrder) -> bool {
    !admission_fault(positions, data) && raises_risk(positions, signed_size(data) as i64, data.user_id@)
}

/// `o` records the incoming order `data`, untouched, under id `id`.
pub open spec fn records(o: Order, data: IncomingOrder, id: Seq<char>) -> bool {
    &&& o.order_id@ == id
    &&& o.user_id == data.user_id
    &&& o.order_type == data.order_type
    &&& o.order_side == data.order_side
    &&& o.symbol == data.symbol
    &&& o.size == data.size
    &&& o.price == data.price
    &&& o.leverage == data.leverage
    &&& o.status == OrderStatus::Open
    &&& o.slippage == data.slippage
    &&& o.filled_qty == 0
    &&& o.remaining_qty == data.size
}

fn risk_range_check(positions: &Table<Position>, order_size: i64, user_id: &String) -> (ok: bool)
    requires
        positions.wf(),
    ensures
        ok == risk_in_range(positions@, order_size, user_id@),
{
    match positions.get(user_id.as_str()) {
        None => true,
        Some(p) => {
            let after: i128 = (order_size as i128) + (p.size as i128);
            p.size != i64::MIN && -0x8000_0000_0000_0000i128 < after && after <= 0x7fff_ffff_ffff_ffffi128
        },
    }
}

/// The margin an order of `data` needs: its notional over its leverage.
pub open spec fn margin_of(data: IncomingOrder) -> u64 {
    ((data.size * data.price) / (data.leverage as int)) as u64
}

/// The requests the margin check of `data` sends to the balance keeper: a
/// balance query for its user, then, when the check passes, the lock of its
/// margin.
pub open spec fn margin_calls(data: IncomingOrder, locked: bool) -> Seq<KeeperCall> {
    if locked {
        seq![KeeperCall::Get(data.user_id@), KeeperCall::Lock(data.user_id@, margin_of(data))]
    } else {
        seq![KeeperCall::Get(data.user_id@)]
    }
}

/// The balance keeper's answers to the margin check of an order: to the
/// balance query, and to the margin lock when one was sent.
pub struct MarginReplies {
    pub query: Option<Result<BalanceResponse, EngineError>>,
    pub lock: Option<Result<BalanceResponse, EngineError>>,
}

/// What the margin check of `data` decides from the keeper's answers: the
/// query's verdict, then the lock's acknowledgement.
pub open spec fn margin_admission(data: IncomingOrder, replies: MarginReplies) -> Result<(), EngineError> {
    match margin_verdict_of(replies.query, data.size, data.price, data.leverage) {
        Err(e) => Err(e),
        Ok(_) => acknowledgement(replies.lock),
    }
}

/// Checks with the balance keeper that `data` is covered and locks its
/// margin, when the order adds to its user's risk. Returns the verdict with
/// the requests sent and the keeper's answers.
fn secure_margin(data: &IncomingOrder, positions: &Table<Position>, balance_tx: &Sender<BalanceRequest>) -> (out: (
    Result<(), EngineError>,
    Ghost<Seq<KeeperCall>>,
    Ghost<MarginReplies>,
))
    requires
        positions.wf(),
    ensures
        admission_fault(positions@, *data) ==> out.0 == Err::<(), EngineError>(EngineError::ArithmeticError)
            && out.1@ == Seq::<KeeperCall>::empty(),
        !admission_fault(positions@, *data) && !needs_margin(positions@, *data) ==> out.0 == Ok::<(), EngineError>(())
            && out.1@ == Seq::<KeeperCall>::empty(),
        needs_margin(positions@, *data) ==> {
            &&& out.0 == margin_admission(*data, out.2@)
            &&& out.1@ == margin_calls(
                *data,
                margin_verdict_of(out.2@.query, data.size, data.price, data.leverage) is Ok,
            )
        },
{
    if data.size > 0x7fff_ffff_ffff_ffffu64 {
        return (Err(EngineError::ArithmeticError), Ghost(Seq::empty()), Ghost(MarginReplies { query: None, lock: None }));
    }
    let signed: i64 = match data.order_side {
        OrderSide::Buy => data.size as i64,
        OrderSide::Sell => -(data.size as i64),
    };
    if !risk_range_check(positions, signed, &data.user_id) {
        return (Err(EngineError::ArithmeticError), Ghost(Seq::empty()), Ghost(MarginReplies { query: None, lock: None }));
    }
    let check = risk_engine(positions, signed, &data.user_id);
    if !check {
        return (Ok(()), Ghost(Seq::empty()), Ghost(MarginReplies { query: None, lock: None }));
    }
    let (tx, rx) = reply_channel();
    let query = send_to_keeper(balance_tx, BalanceRequest::GetBalance { user_id: data.user_id.clone(), response_tx: tx });
    let balance_reply = wait_reply(rx);
    let ghost query_reply = balance_reply;
    let required_margin = match margin_verdict(balance_reply, data.size, data.price, data.leverage) {
        Ok(m) => m,
        Err(e) => {
            let ghost asked = seq![query@];
            return (Err(e), Ghost(asked), Ghost(MarginReplies { query: query_reply, lock: None }));
        },
    };
    let (tx2, rx2) = reply_channel();
    let lock = send_to_keeper(
        balance_tx,
        BalanceRequest::LockMargin { user_id: data.user_id.clone(), amount: required_margin, response_tx: tx2 },
    );
    let lock_reply = wait_reply(rx2);
    let ghost replies = MarginReplies { query: query_reply, lock: lock_reply };
    let ghost asked = seq![query@, lock@];
    (acknowledged(lock_reply), Ghost(asked), Ghost(replies))
}

/// What placing `data` under the fresh order id `id` may do to the engine
/// `m0`, whose positions are `positions`, when it ends in `m1` with reply
/// `r`, `posted` are the requests it sent to the balance keeper and
/// `replies` the keeper's answers to the margin check:
/// - the risk arithmetic leaves `i64`: `ArithmeticError`, nothing changes,
///   nothing is sent;
/// - the order adds to its user's risk: the balance is queried and, when the
///   query's verdict admits it, the margin locked; when `margin_admission`
///   refuses, nothing else changes and its error comes back; otherwise the
///   order is recorded under `id` and placed as `placement` says;
/// - otherwise the order is recorded under `id` and placed as `placement`
///   says.
/// In every placement the position's wallet movements, `stage_calls`, follow.
pub open spec fn order_outcome(
    m0: EngineModel,
    m1: EngineModel,
    positions: Map<Seq<char>, Position>,
    data: IncomingOrder,
    id: Seq<char>,
    posted: Seq<KeeperCall>,
    replies: MarginReplies,
    r: Result<CreateOrderResponse, EngineError>,
) -> bool {
    let checked = needs_margin(positions, data);
    let prefix = if checked { margin_calls(data, true) } else { Seq::empty() };
    let placed = exists|o: Order|
        #[trigger] records(o, data, id) && {
            let m = EngineModel { orders: m0.orders.insert(id, o), ..m0 };
            &&& (m1, r) == placement(m, id)
            &&& posted == prefix + stage_calls(m, id)
        };
    &&& !m0.orders.contains_key(id)
    &&& if admission_fault(positions, data) {
        m1 == m0 && r == Err::<CreateOrderResponse, EngineError>(EngineError::ArithmeticError) && posted
            == Seq::<KeeperCall>::empty()
    } else if checked {
        match margin_admission(data, replies) {
            Err(e) => {
                &&& m1 == m0
                &&& r == Err::<CreateOrderResponse, EngineError>(e)
                &&& posted == margin_calls(
                    data,
                    margin_verdict_of(replies.query, data.size, data.price, data.leverage) is Ok,
                )
            },
            Ok(_) => placed,
        }
    } else {
        placed
    }
}

/// Draws a fresh order id: a random one, extended when it is taken already.
pub fn draw_order_id(orders: &Table<Order>) -> (id: String)
    requires
        orders.wf(),
    ensures
        !orders@.contains_key(id@),
{
    orders.fresh_key(new_order_id())
}

/// Places an incoming order under the fresh id `id`: checks with the balance
/// keeper, and locks, the margin when the order adds to its user's risk,
/// records the order, matches it against the other side of the book, folds
/// its executions into its user's position, and queues what is left of a
/// limit order. Returns the reply with the requests sent to the balance
/// keeper and its answers to the margin check; what comes of it is as
/// `order_outcome` says.
pub fn place_order_with_id(
    id: String,
    data: IncomingOrder,
    orders: &mut Table<Order>,
    book: &mut OrderBook,
    positions: &mut Table<Position>,
    fills: &mut Table<Vec<Fill>>,
    balance_tx: &Sender<BalanceRequest>,
) -> (out: (Result<CreateOrderResponse, EngineError>, Ghost<Seq<KeeperCall>>, Ghost<MarginReplies>))
    requires
        old(orders).wf(),
        old(positions).wf(),
        old(fills).wf(),
        book_consistent(old(orders)@, side_model(old(book).asks), side_model(old(book).bids)),
        !old(orders)@.contains_key(id@),
    ensures
        final(orders).wf(),
        final(positions).wf(),
        final(fills).wf(),
        book_consistent(final(orders)@, side_model(final(book).asks), side_model(final(book).bids)),
        order_outcome(
            engine_model(*old(orders), *old(book), *old(positions), *old(fills)),
            engine_model(*final(orders), *final(book), *final(positions), *final(fills)),
            old(positions)@,
            data,
            id@,
            out.1@,
            out.2@,
            out.0,
        ),
{
    let ghost m0 = engine_model(*orders, *book, *positions, *fills);
    let (secured, margin_posted, replies) = secure_margin(&data, positions, balance_tx);
    match secured {
        Ok(()) => {},
        Err(e) => {
            return (Err(e), margin_posted, replies);
        },
    }
    let order_type = data.order_type;
    let new_order = Order {
        user_id: data.user_id,
        order_id: id.clone(),
        order_type: data.order_type,
        order_side: data.order_side,
        symbol: data.symbol,
        size: data.size,
        price: data.price,
        leverage: data.leverage,
        status: OrderStatus::Open,
        slippage: data.slippage,
        filled_qty: 0,
        remaining_qty: data.size,
        created_at: get_time(),
    };
    let ghost o = new_order;
    proof {
        lemma_new_order_keeps_consistency(orders@, m0.asks, m0.bids, id@, o);
    }
    orders.insert(id.clone(), new_order);
    let ghost m = EngineModel { orders: m0.orders.insert(id@, o), ..m0 };
    assert(engine_model(*orders, *book, *positions, *fills) == m);
    assert(records(o, data, id@));
    let (r, stage_posted) = match order_type {
        OrderType::Market => handle_market_order(id, book, positions, orders, fills, balance_tx),
        OrderType::Limit => handle_limit_order(id, book, positions, orders, fills, balance_tx),
    };
    let ghost posted = margin_posted@ + stage_posted@;
    (r, Ghost(posted), replies)
}

/// Places an incoming order under a freshly drawn id, as
/// `place_order_with_id` does, and returns its reply: for the id drawn, the
/// requests sent to the balance keeper and its answers, what comes of it is
/// as `order_outcome` says; the engine stays consistent.
pub fn create_order(
    data: IncomingOrder,
    orders: &mut Table<Order>,
    book: &mut OrderBook,
    positions: &mut Table<Position>,
    fills: &mut Table<Vec<Fill>>,
    balance_tx: &Sender<BalanceRequest>,
) -> (r: Result<CreateOrderResponse, EngineError>)
    requires
        old(orders).wf(),
        old(positions).wf(),
        old(fills).wf(),
        book_consistent(old(orders)@, side_model(old(book).asks), side_model(old(book).bids)),
    ensures
        final(orders).wf(),
        final(positions).wf(),
        final(fills).wf(),
        book_consistent(final(orders)@, side_model(final(book).asks), side_model(final(book).bids)),
        exists|id: Seq<char>, posted: Seq<KeeperCall>, replies: MarginReplies|
            #[trigger] order_outcome(
                engine_model(*old(orders), *old(book), *old(positions), *old(fills)),
                engine_model(*final(orders), *final(book), *final(positions), *final(fills)),
                old(positions)@,
                data,
                id,
                posted,
                replies,
                r,
            ),
{
    let id = draw_order_id(orders);
    let (r, posted, replies) = place_order_with_id(id, data, orders, book, positions, fills, balance_tx);
    r
}

} // verus!
