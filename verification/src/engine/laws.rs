use vstd::prelude::*;

use crate::engine::check_balance::{credited, margin_locked, margin_released, KeeperCall};
use crate::engine::create_order::{rested, response_for, signed_size, EngineModel};
use crate::engine::delete_order::{cancel_outcome, cancelled};
use crate::engine::create_order::{margin_admission, MarginReplies};
use crate::engine::get_depth::{depth_view, level_total, rank};
use crate::engine::helper::margin_verdict_of;
use crate::engine::helper::raises_risk;
use crate::engine::liquidation::closing_order;
use crate::engine::model::{
    best_price, book_sweep, crosses, history, is_best, lemma_best_exists, lemma_best_unique, level_sweep,
    settle_all_orders, settle_fills, settle_orders, FillRecord, Trade,
};
use crate::engine::position::{
    abs, i64_fits, liquidation_level, notional, opposite_plan, position_plan, sign, u64_fits, volume, BalanceOp,
    PositionChange, PositionPlan, PositionRecord,
};
use crate::engine::types::{
    BalanceResponse, DeleteOrderRes, EngineError, Order, OrderBook, OrderSide, OrderStatus, OrderType, Position, RestingOrder,
};
use crate::types::types::{Balances, DeleteOrderData};

verus! {

/// Units executed by the trades `ts`.
pub open spec fn traded(ts: Seq<Trade>) -> int
    decreases ts.len(),
{
    if ts.len() == 0 {
        0
    } else {
        traded(ts.drop_last()) + ts.last().qty
    }
}

proof fn lemma_traded_concat(a: Seq<Trade>, b: Seq<Trade>)
    ensures
        traded(a + b) == traded(a) + traded(b),
    decreases b.len(),
{
    if b.len() > 0 {
        assert((a + b).drop_last() =~= a + b.drop_last());
        lemma_traded_concat(a, b.drop_last());
    } else {
        assert(a + b =~= a);
    }
}

proof fn lemma_level_sweep_conserves(level: Seq<RestingOrder>, qty: nat)
    ensures
        level_sweep(level, qty).1 + traded(level_sweep(level, qty).2) == qty,
    decreases level.len(),
{
    if qty == 0 || level.len() == 0 {
    } else {
        let front = level[0];
        let m: u64 = if qty < front.remaining_qty { qty as u64 } else { front.remaining_qty };
        let t = Trade { maker: front, qty: m };
        assert(traded(seq![t]) == m) by {
            assert(seq![t].drop_last() =~= Seq::<Trade>::empty());
            assert(traded(Seq::<Trade>::empty()) == 0);
        }
        if front.remaining_qty == m {
            let rest = level_sweep(level.drop_first(), (qty - m) as nat);
            lemma_level_sweep_conserves(level.drop_first(), (qty - m) as nat);
            lemma_traded_concat(seq![t], rest.2);
        }
    }
}

/// Matching conserves quantity: what a sweep of a book side leaves unmatched
/// and what it executes add up to the quantity it started with.
pub proof fn law_sweep_conserves_quantity(levels: Map<u64, Seq<RestingOrder>>, qty: nat, limit: u64, ascending: bool)
    ensures
        book_sweep(levels, qty, limit, ascending).remaining + traded(book_sweep(levels, qty, limit, ascending).trades)
            == qty,
    decreases levels.dom().len(),
{
    if qty == 0 || !levels.dom().finite() || levels.dom().len() == 0 {
    } else {
        let p = best_price(levels, ascending);
        if crosses(p, limit, ascending) {
            let r = level_sweep(levels[p], qty);
            lemma_level_sweep_conserves(levels[p], qty);
            if r.0.len() == 0 {
                lemma_best_exists(levels, ascending);
                law_sweep_conserves_quantity(levels.remove(p), r.1, limit, ascending);
                lemma_traded_concat(r.2, book_sweep(levels.remove(p), r.1, limit, ascending).trades);
            }
        }
    }
}

/// Price-time priority: when the best level (lowest ask for a buy, highest
/// bid for a sell) is within the limit, a sweep starts with the oldest order
/// resting there.
pub proof fn law_sweep_starts_with_oldest_best(
    levels: Map<u64, Seq<RestingOrder>>,
    qty: nat,
    limit: u64,
    ascending: bool,
    p: u64,
)
    requires
        levels.dom().finite(),
        is_best(levels, p, ascending),
        crosses(p, limit, ascending),
        levels[p].len() > 0,
        qty > 0,
    ensures
        book_sweep(levels, qty, limit, ascending).trades.len() > 0,
        book_sweep(levels, qty, limit, ascending).trades[0].maker == levels[p][0],
{
    lemma_best_unique(levels, p, ascending);
    assert(levels.dom().contains(p));
    assert(levels.dom().len() > 0) by {
        vstd::set_lib::lemma_set_empty_equivalency_len(levels.dom());
    }
    let r = level_sweep(levels[p], qty);
    assert(r.2.len() > 0 && r.2[0].maker == levels[p][0]);
    if r.0.len() == 0 {
        lemma_best_exists(levels, ascending);
        let rest = book_sweep(levels.remove(p), r.1, limit, ascending);
        assert((r.2 + rest.trades)[0] == r.2[0]);
    }
}

/// Time priority within a level: a level is matched in queue order, so the
/// `i`-th execution against a level is against its `i`-th oldest order.
pub proof fn law_level_fifo(level: Seq<RestingOrder>, qty: nat)
    ensures
        level_sweep(level, qty).2.len() <= level.len(),
        forall|i: int|
            0 <= i < level_sweep(level, qty).2.len() ==> #[trigger] level_sweep(level, qty).2[i].maker == level[i],
    decreases level.len(),
{
    if qty == 0 || level.len() == 0 {
    } else {
        let front = level[0];
        let m: u64 = if qty < front.remaining_qty { qty as u64 } else { front.remaining_qty };
        if front.remaining_qty == m {
            law_level_fifo(level.drop_first(), (qty - m) as nat);
            let rest = level_sweep(level.drop_first(), (qty - m) as nat);
            let t = Trade { maker: front, qty: m };
            assert forall|i: int| 0 <= i < (seq![t] + rest.2).len() implies #[trigger] (seq![t] + rest.2)[i].maker
                == level[i] by {
                if i > 0 {
                    assert((seq![t] + rest.2)[i] == rest.2[i - 1]);
                    assert(level.drop_first()[i - 1] == level[i]);
                }
            }
        }
    }
}

/// Every level of `levels` holds at least one order, and every resting order
/// has something left to execute.
pub open spec fn resting_open(levels: Map<u64, Seq<RestingOrder>>) -> bool {
    forall|p: u64|
        #[trigger] levels.contains_key(p) ==> levels[p].len() > 0 && forall|i: int|
            0 <= i < levels[p].len() ==> #[trigger] levels[p][i].remaining_qty > 0
}

proof fn lemma_level_sweep_open(level: Seq<RestingOrder>, qty: nat)
    requires
        forall|i: int| 0 <= i < level.len() ==> #[trigger] level[i].remaining_qty > 0,
    ensures
        forall|i: int|
            0 <= i < level_sweep(level, qty).0.len() ==> #[trigger] level_sweep(level, qty).0[i].remaining_qty > 0,
    decreases level.len(),
{
    if qty == 0 || level.len() == 0 {
    } else {
        let front = level[0];
        let m: u64 = if qty < front.remaining_qty { qty as u64 } else { front.remaining_qty };
        if front.remaining_qty == m {
            assert forall|i: int| 0 <= i < level.drop_first().len() implies #[trigger] level.drop_first()[i].remaining_qty
                > 0 by {
                assert(level.drop_first()[i] == level[i + 1]);
            }
            lemma_level_sweep_open(level.drop_first(), (qty - m) as nat);
            assert(level_sweep(level, qty).0 == level_sweep(level.drop_first(), (qty - m) as nat).0);
        } else {
            let out = level.update(0, RestingOrder { remaining_qty: (front.remaining_qty - m) as u64, ..front });
            assert(level_sweep(level, qty).0 == out);
            assert forall|i: int| 0 <= i < out.len() implies #[trigger] out[i].remaining_qty > 0 by {
                if i > 0 {
                    assert(out[i] == level[i]);
                }
            }
        }
    }
}

/// Matching leaves no husk behind: when every level holds an order and every
/// resting order has something left, the same holds after a sweep, since a
/// used-up order leaves its level and a used-up level leaves the book.
pub proof fn law_sweep_leaves_open_orders(levels: Map<u64, Seq<RestingOrder>>, qty: nat, limit: u64, ascending: bool)
    requires
        resting_open(levels),
    ensures
        resting_open(book_sweep(levels, qty, limit, ascending).levels),
    decreases levels.dom().len(),
{
    if qty == 0 || !levels.dom().finite() || levels.dom().len() == 0 {
    } else {
        let p = best_price(levels, ascending);
        if crosses(p, limit, ascending) {
            lemma_best_exists(levels, ascending);
            assert(levels.contains_key(p));
            let r = level_sweep(levels[p], qty);
            lemma_level_sweep_open(levels[p], qty);
            if r.0.len() == 0 {
                assert(resting_open(levels.remove(p)));
                law_sweep_leaves_open_orders(levels.remove(p), r.1, limit, ascending);
            } else {
                let out = levels.insert(p, r.0);
                assert forall|q: u64| #[trigger] out.contains_key(q) implies out[q].len() > 0 && forall|i: int|
                    0 <= i < out[q].len() ==> #[trigger] out[q][i].remaining_qty > 0 by {
                    if q != p {
                        assert(levels.contains_key(q));
                    }
                }
            }
        }
    }
}

/// Limit protection: a sweep leaves every level beyond the limit (above it
/// for a buy, below it for a sell) exactly as it was.
pub proof fn law_sweep_respects_limit(
    levels: Map<u64, Seq<RestingOrder>>,
    qty: nat,
    limit: u64,
    ascending: bool,
    q: u64,
)
    requires
        levels.contains_key(q),
        !crosses(q, limit, ascending),
    ensures
        book_sweep(levels, qty, limit, ascending).levels.contains_key(q),
        book_sweep(levels, qty, limit, ascending).levels[q] == levels[q],
    decreases levels.dom().len(),
{
    if qty == 0 || !levels.dom().finite() || levels.dom().len() == 0 {
    } else {
        let p = best_price(levels, ascending);
        if crosses(p, limit, ascending) {
            assert(p != q);
            let r = level_sweep(levels[p], qty);
            if r.0.len() == 0 {
                lemma_best_exists(levels, ascending);
                law_sweep_respects_limit(levels.remove(p), r.1, limit, ascending, q);
            }
        }
    }
}

/// The status of a placed order reports how much of it executed: `Filled`
/// when nothing is left, `Open` when nothing executed, `PartiallyFilled` in
/// between; the executed and the open quantities add up to the size.
pub proof fn law_status_reflects_execution(size: u64, rem: u64)
    requires
        0 < size,
        rem <= size,
    ensures
        response_for(size, rem).filled_qty + response_for(size, rem).remaining_qty == size,
        response_for(size, rem).order_status == OrderStatus::Filled <==> rem == 0,
        response_for(size, rem).order_status == OrderStatus::Open <==> rem == size,
        response_for(size, rem).order_status == OrderStatus::PartiallyFilled <==> 0 < rem < size,
{
}

/// A cancellation is final: once an order was cancelled, cancelling it again
/// changes nothing, sends nothing to the balance keeper, and is refused with
/// `OrderFilledAlready`.
pub proof fn law_cancel_is_final(
    orders0: Map<Seq<char>, Order>,
    book0: OrderBook,
    orders1: Map<Seq<char>, Order>,
    book1: OrderBook,
    orders2: Map<Seq<char>, Order>,
    book2: OrderBook,
    data: DeleteOrderData,
    posted1: Seq<KeeperCall>,
    posted2: Seq<KeeperCall>,
    reply1: Option<Result<BalanceResponse, EngineError>>,
    reply2: Option<Result<BalanceResponse, EngineError>>,
    r1: Result<DeleteOrderRes, EngineError>,
    r2: Result<DeleteOrderRes, EngineError>,
)
    requires
        cancel_outcome(orders0, book0, orders1, book1, data, posted1, reply1, r1),
        r1 is Ok,
        cancel_outcome(orders1, book1, orders2, book2, data, posted2, reply2, r2),
    ensures
        posted2.len() == 0,
        orders1[data.order_id@] == cancelled(orders0[data.order_id@]),
        r2 == Err::<DeleteOrderRes, EngineError>(EngineError::OrderFilledAlready),
        orders2 == orders1,
        book2 == book1,
{
    assert(orders1.contains_key(data.order_id@));
}

/// Locking margin and then releasing the same amount gives the wallet back
/// as it was, and neither moves funds in or out: available plus locked stays
/// the same.
pub proof fn law_lock_then_release(b: Balances, amount: u64)
    requires
        b.available >= amount,
        b.locked + amount <= u64::MAX,
    ensures
        margin_released(margin_locked(b, amount), amount) == b,
        margin_locked(b, amount).available + margin_locked(b, amount).locked == b.available + b.locked,
        margin_released(b, 0) == b,
{
}

/// Two deposits credit a wallet as one deposit of their sum would; the first
/// deposit of a user opens a wallet holding exactly that deposit.
pub proof fn law_deposits_add_up(balances: Map<Seq<char>, Balances>, user: String, first: u64, second: u64)
    requires
        balances.contains_key(user@) ==> balances[user@].available + first + second <= u64::MAX,
        first + second <= u64::MAX,
    ensures
        credited(balances.insert(user@, credited(balances, user, first)), user, second) == credited(
            balances,
            user,
            (first + second) as u64,
        ),
        !balances.contains_key(user@) ==> credited(balances, user, first).available == first
            && credited(balances, user, first).locked == 0,
{
}

/// Margin is checked exactly for orders that add to risk: always for a user
/// without a position and for an order that turns a position around or grows
/// it, never for one that closes it exactly or shrinks it.
pub proof fn law_margin_only_for_added_risk(positions: Map<Seq<char>, Position>, order_size: i64, user: Seq<char>)
    ensures
        !positions.contains_key(user) ==> raises_risk(positions, order_size, user),
        positions.contains_key(user) ==> {
            let held = positions[user].size as int;
            let after = order_size + held;
            &&& after == 0 ==> !raises_risk(positions, order_size, user)
            &&& after != 0 && sign(after) != sign(held) ==> raises_risk(positions, order_size, user)
            &&& after != 0 && sign(after) == sign(held) ==> (raises_risk(positions, order_size, user) <==> abs(
                after,
            ) >= abs(held))
        },
{
}

/// A liquidation order closes the whole position: a market order on the
/// other side for the full size, so that executing it brings the exposure
/// to zero.
pub proof fn law_liquidation_flattens(user: String, p: Position, market_price: u64)
    ensures
        p.size + signed_size(closing_order(user, p, market_price)) == 0,
        closing_order(user, p, market_price).user_id == user,
        closing_order(user, p, market_price).price == market_price,
{
}

/// A level better than another (lower for asks, higher for bids) has fewer
/// levels before it.
proof fn lemma_rank_strict(levels: Map<u64, Seq<RestingOrder>>, p: u64, q: u64, ascending: bool)
    requires
        levels.dom().finite(),
        levels.contains_key(q),
        if ascending { q < p } else { q > p },
    ensures
        rank(levels, q, ascending) < rank(levels, p, ascending),
{
    let below_p = levels.dom().filter(|x: u64| if ascending { x < p } else { x > p });
    let below_q = levels.dom().filter(|x: u64| if ascending { x < q } else { x > q });
    vstd::set_lib::lemma_set_subset_finite(levels.dom(), below_p);
    assert(below_p.contains(q));
    assert(below_q.subset_of(below_p.remove(q)));
    vstd::set_lib::lemma_len_subset(below_q, below_p.remove(q));
}

/// The depth of a side lists at most ten levels, and they are its best ones:
/// every listed level is better than every level of the side that is left
/// out.
pub proof fn law_depth_is_top_ten(levels: Map<u64, Seq<RestingOrder>>, ascending: bool, p: u64, q: u64)
    requires
        levels.dom().finite(),
    ensures
        depth_view(levels, ascending).dom().finite(),
        depth_view(levels, ascending).dom().len() <= 10,
        depth_view(levels, ascending).contains_key(p) && levels.contains_key(q) && !depth_view(
            levels,
            ascending,
        ).contains_key(q) ==> if ascending { p < q } else { p > q },
{
    let d = depth_view(levels, ascending).dom();
    assert(d.subset_of(levels.dom()));
    vstd::set_lib::lemma_set_subset_finite(levels.dom(), d);
    let f = |x: u64| rank(levels, x, ascending) as int;
    assert(vstd::relations::injective_on(f, d)) by {
        assert forall|x: u64, y: u64| d.contains(x) && d.contains(y) && #[trigger] f(x) == #[trigger] f(y) implies x
            == y by {
            if x != y {
                if (ascending && x < y) || (!ascending && x > y) {
                    lemma_rank_strict(levels, y, x, ascending);
                } else {
                    lemma_rank_strict(levels, x, y, ascending);
                }
            }
        }
    }
    vstd::set_lib::lemma_map_size(d, d.map(f), f);
    vstd::set_lib::lemma_int_range(0, 10);
    assert(d.map(f).subset_of(vstd::set_lib::set_int_range(0, 10)));
    vstd::set_lib::lemma_len_subset(d.map(f), vstd::set_lib::set_int_range(0, 10));
    if depth_view(levels, ascending).contains_key(p) && levels.contains_key(q) && !depth_view(
        levels,
        ascending,
    ).contains_key(q) {
        if p != q && !(if ascending { p < q } else { p > q }) {
            lemma_rank_strict(levels, p, q, ascending);
        }
    }
}

/// Only the open part of a limit order rests: a market order, or a limit
/// order that was executed in full, leaves the book as it is.
pub proof fn law_only_open_limit_orders_rest(m: EngineModel, o: Order, rem: u64)
    ensures
        o.order_type == OrderType::Market ==> rested(m, o, rem) == m,
        rem == 0 ==> rested(m, o, 0) == m,
{
}

/// Every execution is recorded on both sides: the taker and the maker each
/// gain one fill, at the maker's price and for the executed quantity.
pub proof fn law_trade_recorded_for_both(fills: Map<Seq<char>, Seq<FillRecord>>, taker: Seq<char>, t: Trade)
    requires
        t.maker.order_id@ != taker,
    ensures
        ({
            let after = settle_fills(fills, taker, t);
            let maker = t.maker.order_id@;
            &&& history(after, taker) == history(fills, taker).push(history(after, taker).last())
            &&& history(after, maker) == history(fills, maker).push(history(after, maker).last())
            &&& history(after, taker).last().qty == t.qty && history(after, taker).last().price == t.maker.price
            &&& history(after, maker).last().qty == t.qty && history(after, maker).last().price == t.maker.price
            &&& history(after, taker).last().maker_id == maker && history(after, maker).last().taker_id == taker
        }),
{
}

/// A first fill opens a position: for a user without one, the executions
/// `fs` of `order` open a position of their total quantity on the order's
/// side, at their quantity-weighted average price, with margin notional over
/// leverage and the liquidation price one leverage-th beyond the entry; no
/// wallet movement goes with it.
pub proof fn law_first_fill_opens_position(
    positions: Map<Seq<char>, PositionRecord>,
    fs: Seq<FillRecord>,
    order: Order,
)
    requires
        !positions.contains_key(order.user_id@),
        0 < volume(fs) <= i64::MAX,
        u64_fits(notional(fs)),
        order.leverage > 0,
        u64_fits(liquidation_level(notional(fs) / volume(fs), order.leverage as int, order.order_side == OrderSide::Buy)),
    ensures
        ({
            let n = notional(fs);
            let t = volume(fs);
            let avg = n / t;
            let buy = order.order_side == OrderSide::Buy;
            position_plan(positions, fs, order) == Some(
                PositionPlan {
                    change: PositionChange::Replace(
                        PositionRecord {
                            order_id: order.order_id@,
                            average_entry_price: avg as u64,
                            symbol: order.symbol@,
                            margin: (n / (order.leverage as int)) as u64,
                            size: (if buy { t } else { -t }) as i64,
                            liquidation_price: liquidation_level(avg, order.leverage as int, buy) as u64,
                            realized_pnl: None,
                            leverage: order.leverage,
                        },
                    ),
                    ops: Seq::empty(),
                },
            )
        }),
{
}

/// A full close removes the position and releases its whole margin, with the
/// realized result settled: a profit credited before the release, a loss
/// debited after it, nothing more when the trade is flat.
pub proof fn law_full_close_removes_position(p: PositionRecord, order: Order, n: int)
    requires
        p.size != 0,
        abs(p.size as int) <= i64::MAX,
        (order.order_side == OrderSide::Buy) == (p.size < 0),
        0 <= n,
        n / abs(p.size as int) <= i64::MAX,
        p.average_entry_price <= i64::MAX,
        i64_fits(
            if p.size > 0 {
                (n / abs(p.size as int) - p.average_entry_price) * abs(p.size as int)
            } else {
                (p.average_entry_price - n / abs(p.size as int)) * abs(p.size as int)
            },
        ),
    ensures
        ({
            let t = abs(p.size as int);
            let exit = n / t;
            let pnl = if p.size > 0 {
                (exit - p.average_entry_price) * t
            } else {
                (p.average_entry_price - exit) * t
            };
            let ops = if pnl > 0 {
                seq![BalanceOp::Add(pnl as u64), BalanceOp::Release(p.margin)]
            } else if pnl < 0 {
                seq![BalanceOp::Release(p.margin), BalanceOp::Reduce((-pnl) as u64)]
            } else {
                seq![BalanceOp::Release(p.margin)]
            };
            opposite_plan(p, order, n, t) == Some(PositionPlan { change: PositionChange::Remove, ops })
        }),
{
}

/// An execution updates both order records it touches, and no other: each
/// gains the executed quantity as filled and loses it as open, and is then
/// `Filled` when nothing is left open, `PartiallyFilled` when part of it is
/// open, and keeps its status when all of it still is.
pub proof fn law_execution_updates_both_records(orders: Map<Seq<char>, Order>, taker: Seq<char>, t: Trade, k: Seq<char>)
    requires
        orders.contains_key(taker),
        orders.contains_key(t.maker.order_id@),
        t.maker.order_id@ != taker,
        orders[taker].remaining_qty >= t.qty,
        orders[t.maker.order_id@].remaining_qty >= t.qty,
        orders[taker].filled_qty + t.qty <= u64::MAX,
        orders[t.maker.order_id@].filled_qty + t.qty <= u64::MAX,
    ensures
        ({
            let after = settle_orders(orders, taker, t);
            &&& after.dom() == orders.dom()
            &&& (k == taker || k == t.maker.order_id@) && orders.contains_key(k) ==> {
                let o = orders[k];
                let a = after[k];
                &&& a.filled_qty == o.filled_qty + t.qty
                &&& a.remaining_qty == o.remaining_qty - t.qty
                &&& a.size == o.size && a.order_id == o.order_id && a.user_id == o.user_id
                &&& a.order_side == o.order_side && a.price == o.price
                &&& a.remaining_qty == 0 ==> a.status == OrderStatus::Filled
                &&& 0 < a.remaining_qty < a.size ==> a.status == OrderStatus::PartiallyFilled
                &&& 0 < a.remaining_qty && a.remaining_qty >= a.size ==> a.status == o.status
            }
            &&& k != taker && k != t.maker.order_id@ && orders.contains_key(k) ==> after[k] == orders[k]
        }),
{
    let after = settle_orders(orders, taker, t);
    assert(after.dom() =~= orders.dom());
}

/// A partial reduction keeps the entry price: when fills on the other side
/// shrink a position without closing or turning it, the position keeps its
/// average entry price and loses exactly the executed quantity, and no
/// wallet movement goes with it.
pub proof fn law_reduction_keeps_entry(p: PositionRecord, order: Order, n: int, t: int, plan: PositionPlan, r: PositionRecord)
    requires
        opposite_plan(p, order, n, t) == Some(plan),
        plan.change == PositionChange::Replace(r),
        r.size != 0,
        sign(r.size as int) == sign(p.size as int),
    ensures
        r.average_entry_price == p.average_entry_price,
        r.size == p.size + (if order.order_side == OrderSide::Buy { t } else { -t }),
        abs(r.size as int) < abs(p.size as int) || sign(p.size as int) == sign(
            if order.order_side == OrderSide::Buy { t } else { -t },
        ),
        plan.ops.len() == 0,
{
}

/// Cancelling gives back only the margin of the open part: when a cancellable
/// order whose open margin fits is cancelled, the single request sent is a
/// release, for the requesting user, of price times remaining quantity over
/// leverage, which never exceeds the margin of the whole order.
pub proof fn law_cancel_releases_open_margin(
    orders0: Map<Seq<char>, Order>,
    book0: OrderBook,
    orders1: Map<Seq<char>, Order>,
    book1: OrderBook,
    data: DeleteOrderData,
    posted: Seq<KeeperCall>,
    reply: Option<Result<BalanceResponse, EngineError>>,
    r: Result<DeleteOrderRes, EngineError>,
)
    requires
        cancel_outcome(orders0, book0, orders1, book1, data, posted, reply, r),
        orders0.contains_key(data.order_id@),
        orders0[data.order_id@].status == OrderStatus::Open || orders0[data.order_id@].status
            == OrderStatus::PartiallyFilled,
        orders0[data.order_id@].leverage > 0,
        orders0[data.order_id@].price * orders0[data.order_id@].remaining_qty <= u64::MAX,
    ensures
        ({
            let o = orders0[data.order_id@];
            let amount = (o.price * o.remaining_qty) / (o.leverage as int);
            &&& posted == seq![KeeperCall::Release(data.user_id@, amount as u64)]
            &&& o.remaining_qty <= o.size ==> amount <= (o.price * o.size) / (o.leverage as int)
        }),
{
    let o = orders0[data.order_id@];
    if o.remaining_qty <= o.size {
        assert(o.price * o.remaining_qty <= o.price * o.size) by (nonlinear_arith)
            requires
                o.remaining_qty <= o.size,
        ;
        vstd::arithmetic::div_mod::lemma_div_is_ordered(
            o.price * o.remaining_qty,
            o.price * o.size,
            o.leverage as int,
        );
    }
}

proof fn lemma_total_front(level: Seq<RestingOrder>)
    requires
        level.len() > 0,
    ensures
        level_total(level) == level[0].remaining_qty + level_total(level.drop_first()),
    decreases level.len(),
{
    if level.len() == 1 {
        assert(level.drop_last() =~= Seq::<RestingOrder>::empty());
        assert(level.drop_first() =~= Seq::<RestingOrder>::empty());
        assert(level_total(Seq::<RestingOrder>::empty()) == 0);
    } else {
        lemma_total_front(level.drop_last());
        assert(level.drop_last().drop_first() =~= level.drop_first().drop_last());
        assert(level.drop_first().last() == level.last());
    }
}

/// Matching at a level lowers its open quantity by exactly what it executes:
/// the open quantity left at the level plus the quantity executed there is
/// the open quantity the level had.
pub proof fn law_level_total_drops_by_executed(level: Seq<RestingOrder>, qty: nat)
    ensures
        level_total(level_sweep(level, qty).0) + traded(level_sweep(level, qty).2) == level_total(level),
    decreases level.len(),
{
    if qty == 0 || level.len() == 0 {
        assert(traded(Seq::<Trade>::empty()) == 0);
    } else {
        let front = level[0];
        let m: u64 = if qty < front.remaining_qty { qty as u64 } else { front.remaining_qty };
        let t = Trade { maker: front, qty: m };
        assert(traded(seq![t]) == m) by {
            assert(seq![t].drop_last() =~= Seq::<Trade>::empty());
            assert(traded(Seq::<Trade>::empty()) == 0);
        }
        lemma_total_front(level);
        if front.remaining_qty == m {
            let rest = level_sweep(level.drop_first(), (qty - m) as nat);
            law_level_total_drops_by_executed(level.drop_first(), (qty - m) as nat);
            lemma_traded_concat(seq![t], rest.2);
        } else {
            let kept = RestingOrder { remaining_qty: (front.remaining_qty - m) as u64, ..front };
            let out = level.update(0, kept);
            lemma_total_front(out);
            assert(out.drop_first() =~= level.drop_first());
        }
    }
}

/// The margin check counts only the available funds the keeper reports:
/// an order of computable margin `size * price / leverage` is admitted, with
/// that margin, exactly when the reported available balance covers it, and is
/// refused with `NotEnoughBalance` otherwise; the funds reported locked play
/// no part.
pub proof fn law_margin_counts_available_funds(b: BalanceResponse, locked: u64, size: u64, price: u64, leverage: u64)
    requires
        leverage > 0,
        size * price <= u64::MAX,
    ensures
        b.balance >= (size * price) / (leverage as int) ==> margin_verdict_of(Some(Ok(b)), size, price, leverage)
            == Ok::<u64, EngineError>(((size * price) / (leverage as int)) as u64),
        b.balance < (size * price) / (leverage as int) ==> margin_verdict_of(Some(Ok(b)), size, price, leverage)
            == Err::<u64, EngineError>(EngineError::NotEnoughBalance),
        margin_verdict_of(Some(Ok(BalanceResponse { locked, ..b })), size, price, leverage) == margin_verdict_of(
            Some(Ok(b)),
            size,
            price,
            leverage,
        ),
{
}

/// An order that the margin check admits was covered: the keeper answered the
/// balance query with available funds of at least its margin.
pub proof fn law_admitted_orders_are_covered(data: crate::types::types::IncomingOrder, replies: MarginReplies)
    requires
        margin_admission(data, replies) is Ok,
    ensures
        replies.query matches Some(Ok(b)) && data.leverage > 0 && b.balance >= (data.size * data.price) / (
        data.leverage as int),
{
}

/// A sweep's executions accumulate on the incoming order's record: it gains
/// as filled, and loses as open, exactly the quantity executed.
pub proof fn law_taker_record_accumulates(orders: Map<Seq<char>, Order>, taker: Seq<char>, ts: Seq<Trade>)
    requires
        orders.contains_key(taker),
        forall|i: int| 0 <= i < ts.len() ==> #[trigger] ts[i].maker.order_id@ != taker,
        orders[taker].remaining_qty >= traded(ts),
        orders[taker].filled_qty + traded(ts) <= u64::MAX,
    ensures
        settle_all_orders(orders, taker, ts).contains_key(taker),
        settle_all_orders(orders, taker, ts)[taker].filled_qty == orders[taker].filled_qty + traded(ts),
        settle_all_orders(orders, taker, ts)[taker].remaining_qty == orders[taker].remaining_qty - traded(ts),
        settle_all_orders(orders, taker, ts)[taker].size == orders[taker].size,
    decreases ts.len(),
{
    if ts.len() > 0 {
        let last = ts.last();
        assert(ts[ts.len() - 1] == last);
        assert forall|i: int| 0 <= i < ts.drop_last().len() implies #[trigger] ts.drop_last()[i].maker.order_id@ != taker by {
            assert(ts.drop_last()[i] == ts[i]);
        }
        law_taker_record_accumulates(orders, taker, ts.drop_last());
    }
}

} // verus!
