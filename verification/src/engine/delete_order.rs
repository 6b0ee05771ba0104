use std::collections::{BTreeMap, VecDeque};
use tokio::sync::mpsc::Sender;
use vstd::prelude::*;

use crate::channel::{reply_channel, wait_reply};
use crate::engine::check_balance::{send_to_keeper, KeeperCall};
use crate::engine::helper::{acknowledged, acknowledgement};
use crate::engine::model::{
    book_consistent, lemma_prices_ordered, orders_balanced, resting_ids_distinct, side_backed, side_model,
};
use crate::engine::types::{BalanceResponse, DeleteOrderRes, EngineError, Order, OrderBook, OrderSide, OrderStatus, RestingOrder};
use crate::table::Table;
use crate::types::types::{BalanceRequest, DeleteOrderData};

verus! {

broadcast use vstd::std_specs::btree::group_btree_axioms;

/// An order that can still be cancelled.
pub open spec fn cancellable(o: Order) -> bool {
    o.status == OrderStatus::Open || o.status == OrderStatus::PartiallyFilled
}

/// The margin held for the open part of `o` can be computed within `u64`.
pub open spec fn reclaim_in_range(o: Order) -> bool {
    o.leverage > 0 && o.price * o.remaining_qty <= u64::MAX
}

/// The margin held for the open part of `o`: its open notional over its
/// leverage.
pub open spec fn reclaimed(o: Order) -> u64 {
    ((o.price * o.remaining_qty) / (o.leverage as int)) as u64
}

/// Position of the first order keyed `id` in `level`, `-1` when there is none.
pub open spec fn first_slot(level: Seq<RestingOrder>, id: Seq<char>) -> int {
    if exists|i: int| 0 <= i < level.len() && #[trigger] level[i].order_id@ == id {
        choose|i: int|
            0 <= i < level.len() && #[trigger] level[i].order_id@ == id && forall|j: int|
                0 <= j < i ==> level[j].order_id@ != id
    } else {
        -1
    }
}

/// The side `levels` with the first order keyed `id` at `price` taken out;
/// `None` when there is no such order.
pub open spec fn taken_out(levels: Map<u64, Seq<RestingOrder>>, price: u64, id: Seq<char>) -> Option<Map<u64, Seq<RestingOrder>>> {
    if !levels.contains_key(price) || first_slot(levels[price], id) < 0 {
        None
    } else {
        Some(levels.insert(price, levels[price].remove(first_slot(levels[price], id))))
    }
}

/// `o` marked as cancelled.
pub open spec fn cancelled(o: Order) -> Order {
    Order { status: OrderStatus::Cancelled, ..o }
}

/// Takes the first order keyed `id` out of the level at `price`. The level
/// stays in the map, even when it becomes empty.
fn take_from_side(side: &mut BTreeMap<u64, VecDeque<RestingOrder>>, price: u64, id: &String) -> (found: bool)
    ensures
        match taken_out(side_model(*old(side)), price, id@) {
            Some(levels) => found && side_model(*final(side)) == levels,
            None => !found && side_model(*final(side)) == side_model(*old(side)),
        },
{
    proof {
        lemma_prices_ordered();
    }
    let ghost lm = side_model(*side);
    let mut level: VecDeque<RestingOrder> = match side.remove(&price) {
        Some(l) => l,
        None => {
            assert(side_model(*side) =~= lm);
            return false;
        },
    };
    let ghost lv = level@;
    assert(side_model(*side) =~= lm.remove(price));
    let mut i: usize = 0;
    while i < level.len()
        invariant
            level@ == lv,
            lm == side_model(*old(side)),
            side_model(*side) == lm.remove(price),
            lm.contains_key(price),
            lm[price] == lv,
            i <= lv.len(),
            forall|j: int| 0 <= j < i ==> lv[j].order_id@ != id@,
        decreases lv.len() - i,
    {
        if level[i].order_id == *id {
            let ghost before = *side;
            let _ = level.remove(i);
            assert(level@ == lv.remove(i as int));
            proof {
                lemma_prices_ordered();
            }
            side.insert(price, level);
            assert(side@ == before@.insert(price, level));
            assert(side_model(*side) =~= side_model(before).insert(price, level@));
            proof {
                assert(lv[i as int].order_id@ == id@);
                let k = first_slot(lv, id@);
                assert(0 <= k < lv.len() && lv[k].order_id@ == id@);
                assert(k == i as int);
                assert(side_model(*side) =~= lm.insert(price, lv.remove(i as int)));
            }
            return true;
        }
        i = i + 1;
    }
    proof {
        lemma_prices_ordered();
    }
    let ghost before = *side;
    side.insert(price, level);
    assert(side@ == before@.insert(price, level));
    assert(side_model(*side) =~= side_model(before).insert(price, level@));
    proof {
        assert(first_slot(lv, id@) == -1);
        assert(side_model(*side) =~= lm);
    }
    false
}

proof fn lemma_backed_take(
    lm: Map<u64, Seq<RestingOrder>>,
    p: u64,
    k: int,
    orders: Map<Seq<char>, Order>,
    side: OrderSide,
)
    requires
        side_backed(lm, orders, side),
        resting_ids_distinct(lm),
        lm.contains_key(p),
        0 <= k < lm[p].len(),
    ensures
        side_backed(lm.insert(p, lm[p].remove(k)), orders, side),
        resting_ids_distinct(lm.insert(p, lm[p].remove(k))),
{
    let nl = lm.insert(p, lm[p].remove(k));
    assert forall|q: u64, i: int| #![trigger nl[q][i]] nl.contains_key(q) && 0 <= i < nl[q].len() implies {
        &&& orders.contains_key(nl[q][i].order_id@)
        &&& orders[nl[q][i].order_id@].remaining_qty == nl[q][i].remaining_qty
        &&& orders[nl[q][i].order_id@].order_side == side
    } by {
        let j = if q == p && i >= k { i + 1 } else { i };
        assert(nl[q][i] == lm[q][j]);
    }
    assert forall|p1: u64, i1: int, p2: u64, i2: int|
        #![trigger nl[p1][i1], nl[p2][i2]]
        nl.contains_key(p1) && nl.contains_key(p2) && 0 <= i1 < nl[p1].len() && 0 <= i2 < nl[p2].len() && (p1
            != p2 || i1 != i2) implies nl[p1][i1].order_id@ != nl[p2][i2].order_id@ by {
        let j1 = if p1 == p && i1 >= k { i1 + 1 } else { i1 };
        let j2 = if p2 == p && i2 >= k { i2 + 1 } else { i2 };
        assert(nl[p1][i1] == lm[p1][j1]);
        assert(nl[p2][i2] == lm[p2][j2]);
    }
}

/// The withdrawal of the recorded order `id` from `orders0` and `book0`,
/// ending in `orders1` and `book1` with reply `r`: the order is marked
/// cancelled; when it rests at its price on its own side it leaves that
/// level (which stays in the book, even when emptied) and the reply reports it,
/// otherwise the book is left as it was and the reply is `OrderNotFound`.
pub open spec fn withdrawal(
    orders0: Map<Seq<char>, Order>,
    book0: OrderBook,
    orders1: Map<Seq<char>, Order>,
    book1: OrderBook,
    id: Seq<char>,
    r: Result<DeleteOrderRes, EngineError>,
) -> bool {
    let o = orders0[id];
    let buy = o.order_side == OrderSide::Buy;
    let own = if buy { side_model(book0.bids) } else { side_model(book0.asks) };
    &&& orders1 == orders0.insert(id, cancelled(o))
    &&& match taken_out(own, o.price, id) {
        None => {
            &&& r == Err::<DeleteOrderRes, EngineError>(EngineError::OrderNotFound)
            &&& side_model(book1.asks) == side_model(book0.asks)
            &&& side_model(book1.bids) == side_model(book0.bids)
        },
        Some(levels) => {
            &&& r matches Ok(res) && res.success && res.order_status == o.status && res.order_id@ == id
                && res.data@ == "Order deleted Successfully"@
            &&& buy ==> side_model(book1.bids) == levels && book1.asks == book0.asks
            &&& !buy ==> side_model(book1.asks) == levels && book1.bids == book0.bids
        },
    }
}

/// Marks the recorded order `order_id` cancelled and takes it out of its side
/// of the book; `OrderNotFound` when it does not rest there, in which case
/// the order stays marked cancelled.
pub fn withdraw_order(order_id: &String, orders: &mut Table<Order>, order_book: &mut OrderBook) -> (r: Result<DeleteOrderRes, EngineError>)
    requires
        old(orders).wf(),
        old(orders)@.contains_key(order_id@),
        book_consistent(old(orders)@, side_model(old(order_book).asks), side_model(old(order_book).bids)),
    ensures
        final(orders).wf(),
        book_consistent(final(orders)@, side_model(final(order_book).asks), side_model(final(order_book).bids)),
        withdrawal(old(orders)@, *old(order_book), final(orders)@, *final(order_book), order_id@, r),
{
    let ghost o = orders@[order_id@];
    let (price, buy, status) = match orders.get(order_id.as_str()) {
        Some(ord) => (ord.price, ord.order_side == OrderSide::Buy, ord.status),
        None => {
            return Err(EngineError::OrderNotFound);
        },
    };
    match orders.remove_entry(order_id.as_str()) {
        Some((key, ord)) => {
            let mut ord = ord;
            ord.status = OrderStatus::Cancelled;
            orders.insert(key, ord);
        },
        None => {},
    }
    assert(orders@ =~= old(orders)@.insert(order_id@, cancelled(o)));
    let ghost asks0 = side_model(order_book.asks);
    let ghost bids0 = side_model(order_book.bids);
    proof {
        let no = orders@;
        assert forall|p: u64, i: int| #![trigger asks0[p][i]] asks0.contains_key(p) && 0 <= i < asks0[p].len() implies {
            &&& no.contains_key(asks0[p][i].order_id@)
            &&& no[asks0[p][i].order_id@].remaining_qty == asks0[p][i].remaining_qty
            &&& no[asks0[p][i].order_id@].order_side == OrderSide::Sell
        } by {}
        assert forall|p: u64, i: int| #![trigger bids0[p][i]] bids0.contains_key(p) && 0 <= i < bids0[p].len() implies {
            &&& no.contains_key(bids0[p][i].order_id@)
            &&& no[bids0[p][i].order_id@].remaining_qty == bids0[p][i].remaining_qty
            &&& no[bids0[p][i].order_id@].order_side == OrderSide::Buy
        } by {}
        assert(orders_balanced(no));
    }
    let found = if buy {
        take_from_side(&mut order_book.bids, price, order_id)
    } else {
        take_from_side(&mut order_book.asks, price, order_id)
    };
    proof {
        let own = if buy { bids0 } else { asks0 };
        if found {
            let k = first_slot(own[price], order_id@);
            if buy {
                lemma_backed_take(bids0, price, k, orders@, OrderSide::Buy);
            } else {
                lemma_backed_take(asks0, price, k, orders@, OrderSide::Sell);
            }
        }
    }
    if !found {
        return Err(EngineError::OrderNotFound);
    }
    let data = "Order deleted Successfully".to_owned();
    Ok(DeleteOrderRes { success: true, order_status: status, order_id: order_id.clone(), data })
}
/// What cancelling `data` may do to the orders `orders0` and the book
/// `book0`, ending in `orders1` and `book1` with reply `r`, when `posted` are
/// the requests it sent to the balance keeper: nothing changes, nothing is
/// sent and an error comes back when the order is unknown
/// (`OrderNotFound`), filled or cancelled already (`OrderFilledAlready`), or
/// when its margin cannot be computed within `u64` (`ArithmeticError`);
/// otherwise exactly one release of the order's open margin is sent for the
/// requesting user, and when the keeper's answer `reply` is not an
/// acknowledgement its error comes back and nothing changes, else the order
/// is withdrawn as `withdrawal` says.
pub open spec fn cancel_outcome(
    orders0: Map<Seq<char>, Order>,
    book0: OrderBook,
    orders1: Map<Seq<char>, Order>,
    book1: OrderBook,
    data: DeleteOrderData,
    posted: Seq<KeeperCall>,
    reply: Option<Result<BalanceResponse, EngineError>>,
    r: Result<DeleteOrderRes, EngineError>,
) -> bool {
    let id = data.order_id@;
    let o = orders0[id];
    let unchanged = orders1 == orders0 && book1 == book0 && posted == Seq::<KeeperCall>::empty();
    &&& !orders0.contains_key(id) ==> unchanged && r == Err::<DeleteOrderRes, EngineError>(EngineError::OrderNotFound)
    &&& orders0.contains_key(id) && !cancellable(o) ==> unchanged && r == Err::<DeleteOrderRes, EngineError>(
        EngineError::OrderFilledAlready,
    )
    &&& orders0.contains_key(id) && cancellable(o) && !reclaim_in_range(o) ==> unchanged && r == Err::<
        DeleteOrderRes,
        EngineError,
    >(EngineError::ArithmeticError)
    &&& orders0.contains_key(id) && cancellable(o) && reclaim_in_range(o) ==> {
        &&& posted == seq![KeeperCall::Release(data.user_id@, reclaimed(o))]
        &&& match acknowledgement(reply) {
            Err(e) => orders1 == orders0 && book1 == book0 && r == Err::<DeleteOrderRes, EngineError>(e),
            Ok(_) => withdrawal(orders0, book0, orders1, book1, id, r),
        }
    }
}

/// Cancels an order on request: an order that is still open or partially
/// filled has the margin of its open part released with the balance keeper,
/// is marked cancelled and leaves the book; see `withdraw_order`. Returns the
/// reply with the requests sent to the balance keeper and its answer; what comes of it is as
/// `cancel_outcome` says.
pub fn cancel_order(
    data: DeleteOrderData,
    orders: &mut Table<Order>,
    order_book: &mut OrderBook,
    btc_balance_tx: &Sender<BalanceRequest>,
) -> (out: (Result<DeleteOrderRes, EngineError>, Ghost<Seq<KeeperCall>>, Ghost<Option<Result<BalanceResponse, EngineError>>>))
    requires
        old(orders).wf(),
        book_consistent(old(orders)@, side_model(old(order_book).asks), side_model(old(order_book).bids)),
    ensures
        final(orders).wf(),
        book_consistent(final(orders)@, side_model(final(order_book).asks), side_model(final(order_book).bids)),
        cancel_outcome(old(orders)@, *old(order_book), final(orders)@, *final(order_book), data, out.1@, out.2@, out.0),
{
    let ghost d = data;
    let order_id = data.order_id;
    let (price, status, leverage, remaining_qty) = match orders.get(order_id.as_str()) {
        Some(ord) => (ord.price, ord.status, ord.leverage, ord.remaining_qty),
        None => {
            return (Err(EngineError::OrderNotFound), Ghost(Seq::empty()), Ghost(None));
        },
    };
    let ghost asked: Seq<KeeperCall> = Seq::empty();
    let ghost answer: Option<Result<BalanceResponse, EngineError>> = None;
    match status {
        OrderStatus::Open | OrderStatus::PartiallyFilled => {
            assert((price as u128) * (remaining_qty as u128) <= 0xffff_ffff_ffff_ffffu128 * 0xffff_ffff_ffff_ffffu128)
                by (nonlinear_arith);
            if leverage == 0 || (price as u128) * (remaining_qty as u128) > 0xffff_ffff_ffff_ffffu128 {
                return (Err(EngineError::ArithmeticError), Ghost(Seq::empty()), Ghost(None));
            }
            let positional_price: u64 = price * remaining_qty;
            let final_amount_to_reclaim: u64 = positional_price / leverage;
            let (tx, rx) = reply_channel();
            let release = send_to_keeper(
                btc_balance_tx,
                BalanceRequest::ReleaseMargin { user_id: data.user_id, amount: final_amount_to_reclaim, response_tx: tx },
            );
            proof {
                asked = seq![release@];
            }
            let keeper_reply = wait_reply(rx);
            proof {
                answer = keeper_reply;
            }
            match acknowledged(keeper_reply) {
                Ok(()) => {},
                Err(e) => {
                    return (Err(e), Ghost(asked), Ghost(answer));
                },
            }
        },
        _ => {
            return (Err(EngineError::OrderFilledAlready), Ghost(Seq::empty()), Ghost(None));
        },
    }
    (withdraw_order(&order_id, orders, order_book), Ghost(asked), Ghost(answer))
}

/// Cancels an order on request, as `cancel_order` does, and returns its
/// reply: for the requests sent to the balance keeper and its answer, what comes of it is
/// as `cancel_outcome` says; the book stays consistent.
pub fn delete_order_func(
    data: DeleteOrderData,
    orders: &mut Table<Order>,
    order_book: &mut OrderBook,
    btc_balance_tx: &Sender<BalanceRequest>,
) -> (r: Result<DeleteOrderRes, EngineError>)
    requires
        old(orders).wf(),
        book_consistent(old(orders)@, side_model(old(order_book).asks), side_model(old(order_book).bids)),
    ensures
        final(orders).wf(),
        book_consistent(final(orders)@, side_model(final(order_book).asks), side_model(final(order_book).bids)),
        exists|posted: Seq<KeeperCall>, reply: Option<Result<BalanceResponse, EngineError>>|
            #[trigger] cancel_outcome(
                old(orders)@,
                *old(order_book),
                final(orders)@,
                *final(order_book),
                data,
                posted,
                reply,
                r,
            ),
{
    let (r, posted, reply) = cancel_order(data, orders, order_book, btc_balance_tx);
    r
}

} // verus!
