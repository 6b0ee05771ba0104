use std::collections::{BTreeMap, VecDeque};
use vstd::prelude::*;

use crate::engine::helper::get_time;
use crate::engine::model::{
    after_fill, best_price, book_sweep, crosses, fills_model, history, is_best, lemma_best_unique, lemma_level_sweep_stops,
    lemma_prices_ordered, level_sweep, book_consistent, FillRecord, not_resting, opened, orders_balanced, resting_ids_distinct, settle_all_fills,
    settle_all_orders, settle_fills, settle_orders, side_backed, side_model, Trade,
};
use crate::engine::laws::{
    law_sweep_conserves_quantity, law_sweep_leaves_open_orders, law_sweep_respects_limit,
    law_sweep_starts_with_oldest_best, resting_open, traded,
};
use crate::engine::types::{EngineError, Fill, Order, OrderBook, OrderSide, OrderStatus, RestingOrder};
use crate::table::Table;

verus! {

broadcast use vstd::std_specs::btree::group_btree_axioms;

/// Calls `BTreeMap::first_key_value`, which returns the entry with the
/// smallest key: the lowest price level of `side`, `None` when it is empty.
#[verifier::external_body]
pub(crate) fn lowest_level(side: &BTreeMap<u64, VecDeque<RestingOrder>>) -> (p: Option<u64>)
    ensures
        match p {
            Some(p) => is_best(side_model(*side), p, true),
            None => side@.dom().len() == 0,
        },
{
    match side.first_key_value() {
        Some((price, _)) => Some(*price),
        None => None,
    }
}

/// Calls `BTreeMap::last_key_value`, which returns the entry with the
/// largest key: the highest price level of `side`, `None` when it is empty.
#[verifier::external_body]
pub(crate) fn highest_level(side: &BTreeMap<u64, VecDeque<RestingOrder>>) -> (p: Option<u64>)
    ensures
        match p {
            Some(p) => is_best(side_model(*side), p, false),
            None => side@.dom().len() == 0,
        },
{
    match side.last_key_value() {
        Some((price, _)) => Some(*price),
        None => None,
    }
}

/// Records that `qty` more units of order `id` were executed.
fn fill_order(orders: &mut Table<Order>, id: &String, qty: u64)
    requires
        old(orders).wf(),
        old(orders)@.contains_key(id@),
        old(orders)@[id@].remaining_qty >= qty,
        old(orders)@[id@].filled_qty + qty <= u64::MAX,
    ensures
        final(orders).wf(),
        final(orders)@ == old(orders)@.insert(id@, after_fill(old(orders)@[id@], qty)),
{
    match orders.remove_entry(id.as_str()) {
        Some((key, o)) => {
            let mut o = o;
            o.filled_qty = o.filled_qty + qty;
            o.remaining_qty = o.remaining_qty - qty;
            if o.remaining_qty < o.size {
                o.status = OrderStatus::PartiallyFilled;
            }
            if o.remaining_qty == 0 {
                o.status = OrderStatus::Filled;
            }
            orders.insert(key, o);
            proof {
                assert(orders@ =~= old(orders)@.insert(id@, after_fill(old(orders)@[id@], qty)));
            }
        },
        None => {},
    }
}

/// Appends `fill` to the fills recorded under `key`.
fn append_fill(fills: &mut Table<Vec<Fill>>, key: &String, fill: Fill)
    requires
        old(fills).wf(),
    ensures
        final(fills).wf(),
        fills_model(final(fills)@) == fills_model(old(fills)@).insert(
            key@,
            history(fills_model(old(fills)@), key@).push(fill@),
        ),
{
    let ghost fm = fills_model(old(fills)@);
    let mut list: Vec<Fill> = match fills.remove(key.as_str()) {
        Some(v) => v,
        None => Vec::new(),
    };
    let ghost before = list@;
    assert(before.map_values(|f: Fill| f@) =~= history(fm, key@));
    list.push(fill);
    assert(list@.map_values(|f: Fill| f@) =~= history(fm, key@).push(fill@));
    fills.insert(key.clone(), list);
    assert(fills_model(fills@) =~= fm.insert(key@, history(fm, key@).push(fill@)));
}

/// Records execution of `qty` units between the incoming order `taker` and
/// the resting order `maker`: one fill for each side, and both order records.
fn record_trade(orders: &mut Table<Order>, fills: &mut Table<Vec<Fill>>, taker: &String, maker: &RestingOrder, qty: u64)
    requires
        old(orders).wf(),
        old(fills).wf(),
        taker@ != maker.order_id@,
        old(orders)@.contains_key(taker@),
        old(orders)@.contains_key(maker.order_id@),
        old(orders)@[taker@].remaining_qty >= qty,
        old(orders)@[maker.order_id@].remaining_qty >= qty,
        orders_balanced(old(orders)@),
    ensures
        final(orders).wf(),
        final(fills).wf(),
        final(orders)@ == settle_orders(old(orders)@, taker@, Trade { maker: *maker, qty }),
        fills_model(final(fills)@) == settle_fills(fills_model(old(fills)@), taker@, Trade { maker: *maker, qty }),
{
    let taker_fill = Fill {
        order_id: taker.clone(),
        maker_id: maker.order_id.clone(),
        taker_id: taker.clone(),
        price: maker.price,
        qty,
        symbol: maker.symbol.clone(),
        consumed: false,
        time: get_time(),
    };
    append_fill(fills, taker, taker_fill);
    let maker_fill = Fill {
        order_id: maker.order_id.clone(),
        maker_id: maker.order_id.clone(),
        taker_id: taker.clone(),
        price: maker.price,
        qty,
        symbol: maker.symbol.clone(),
        consumed: false,
        time: get_time(),
    };
    append_fill(fills, &maker.order_id, maker_fill);
    fill_order(orders, taker, qty);
    fill_order(orders, &maker.order_id, qty);
}



/// The level at `p` after execution of `m` units against its oldest order:
/// that order leaves when used up, else stays first with less open.
pub open spec fn level_after(level: Seq<RestingOrder>, m: u64) -> Seq<RestingOrder> {
    if level[0].remaining_qty > m {
        level.update(0, RestingOrder { remaining_qty: (level[0].remaining_qty - m) as u64, ..level[0] })
    } else {
        level.drop_first()
    }
}

proof fn lemma_backed_after_trade(
    lm: Map<u64, Seq<RestingOrder>>,
    p: u64,
    m: u64,
    pre: Map<Seq<char>, Order>,
    post: Map<Seq<char>, Order>,
    taker: Seq<char>,
    ms: OrderSide,
)
    requires
        side_backed(lm, pre, ms),
        resting_ids_distinct(lm),
        lm.contains_key(p),
        lm[p].len() > 0,
        m <= lm[p][0].remaining_qty,
        pre.contains_key(taker),
        not_resting(lm, taker),
        post == settle_orders(pre, taker, Trade { maker: lm[p][0], qty: m }),
    ensures
        side_backed(lm.insert(p, level_after(lm[p], m)), post, ms),
        resting_ids_distinct(lm.insert(p, level_after(lm[p], m))),
        not_resting(lm.insert(p, level_after(lm[p], m)), taker),
{
    let front = lm[p][0];
    let nl = lm.insert(p, level_after(lm[p], m));
    assert(lm[p][0] == front);
    assert(pre[front.order_id@].order_side == ms);
    assert(front.order_id@ != taker);
    // where each entry of the new map stood before
    assert forall|q: u64, i: int| nl.contains_key(q) && 0 <= i < nl[q].len() implies {
        let j = if q == p && front.remaining_qty <= m { i + 1 } else { i };
        &&& lm.contains_key(q)
        &&& 0 <= j < lm[q].len()
        &&& (q != p || j != 0 ==> #[trigger] nl[q][i] == lm[q][j])
        &&& (q == p && j == 0 ==> nl[q][i] == RestingOrder { remaining_qty: (front.remaining_qty - m) as u64, ..front })
    } by {
    }
    assert forall|q: u64, i: int| #![trigger nl[q][i]] nl.contains_key(q) && 0 <= i < nl[q].len() implies {
        &&& post.contains_key(nl[q][i].order_id@)
        &&& post[nl[q][i].order_id@].remaining_qty == nl[q][i].remaining_qty
        &&& post[nl[q][i].order_id@].order_side == ms
    } by {
        let j = if q == p && front.remaining_qty <= m { i + 1 } else { i };
        let e = lm[q][j];
        assert(pre.contains_key(e.order_id@));
        assert(pre[e.order_id@].order_side == ms);
        if q == p && j == 0 {
        } else {
            assert(e.order_id@ != front.order_id@);
            assert(e.order_id@ != taker);
        }
    }
    assert forall|p1: u64, i1: int, p2: u64, i2: int|
        #![trigger nl[p1][i1], nl[p2][i2]]
        nl.contains_key(p1) && nl.contains_key(p2) && 0 <= i1 < nl[p1].len() && 0 <= i2 < nl[p2].len() && (p1
            != p2 || i1 != i2) implies nl[p1][i1].order_id@ != nl[p2][i2].order_id@ by {
        let j1 = if p1 == p && front.remaining_qty <= m { i1 + 1 } else { i1 };
        let j2 = if p2 == p && front.remaining_qty <= m { i2 + 1 } else { i2 };
        assert(nl[p1][i1].order_id@ == lm[p1][j1].order_id@);
        assert(nl[p2][i2].order_id@ == lm[p2][j2].order_id@);
        assert(lm[p1][j1].order_id@ != lm[p2][j2].order_id@);
    }
    assert forall|q: u64, i: int| #![trigger nl[q][i]] nl.contains_key(q) && 0 <= i < nl[q].len() implies nl[q][
        i].order_id@ != taker by {
        let j = if q == p && front.remaining_qty <= m { i + 1 } else { i };
        assert(nl[q][i].order_id@ == lm[q][j].order_id@);
    }
}


proof fn lemma_backed_remove(
    lm: Map<u64, Seq<RestingOrder>>,
    p: u64,
    orders: Map<Seq<char>, Order>,
    ms: OrderSide,
    taker: Seq<char>,
)
    requires
        side_backed(lm, orders, ms),
        resting_ids_distinct(lm),
        not_resting(lm, taker),
    ensures
        side_backed(lm.remove(p), orders, ms),
        resting_ids_distinct(lm.remove(p)),
        not_resting(lm.remove(p), taker),
{
    let nl = lm.remove(p);
    assert forall|q: u64, i: int| #![trigger nl[q][i]] nl.contains_key(q) && 0 <= i < nl[q].len() implies {
        &&& orders.contains_key(nl[q][i].order_id@)
        &&& orders[nl[q][i].order_id@].remaining_qty == nl[q][i].remaining_qty
        &&& orders[nl[q][i].order_id@].order_side == ms
    } by {
        assert(nl[q][i] == lm[q][i]);
    }
    assert forall|p1: u64, i1: int, p2: u64, i2: int|
        #![trigger nl[p1][i1], nl[p2][i2]]
        nl.contains_key(p1) && nl.contains_key(p2) && 0 <= i1 < nl[p1].len() && 0 <= i2 < nl[p2].len() && (p1
            != p2 || i1 != i2) implies nl[p1][i1].order_id@ != nl[p2][i2].order_id@ by {
        assert(nl[p1][i1] == lm[p1][i1]);
        assert(nl[p2][i2] == lm[p2][i2]);
    }
    assert forall|q: u64, i: int| #![trigger nl[q][i]] nl.contains_key(q) && 0 <= i < nl[q].len() implies nl[q][
        i].order_id@ != taker by {
        assert(nl[q][i] == lm[q][i]);
    }
}

/// The side of the book that an incoming buy (`ascending`) or sell meets.
pub open spec fn maker_side(ascending: bool) -> OrderSide {
    if ascending {
        OrderSide::Sell
    } else {
        OrderSide::Buy
    }
}

/// Orders of side `side` stand as in `before`, and no order appeared or left.
pub open spec fn others_unchanged(
    before: Map<Seq<char>, Order>,
    after: Map<Seq<char>, Order>,
    taker: Seq<char>,
    side: OrderSide,
) -> bool {
    &&& forall|k: Seq<char>| #[trigger] after.contains_key(k) == before.contains_key(k)
    &&& forall|k: Seq<char>| #[trigger] before.contains_key(k) ==> after[k].order_side == before[k].order_side
        && after[k].size == before[k].size
    &&& forall|k: Seq<char>|
        #[trigger] before.contains_key(k) && k != taker && before[k].order_side != side ==> after[k] == before[k]
}

/// Matches `incoming_qty` of the order keyed `taker` against `side`, best
/// level first and oldest order first within a level, while levels cross
/// `limit`. Returns the quantity left unmatched.
fn sweep_side(
    side: &mut BTreeMap<u64, VecDeque<RestingOrder>>,
    ascending: bool,
    incoming_qty: u64,
    limit: u64,
    orders: &mut Table<Order>,
    fills: &mut Table<Vec<Fill>>,
    taker: &String,
) -> (rem: u64)
    requires
        old(orders).wf(),
        old(fills).wf(),
        orders_balanced(old(orders)@),
        side_backed(side_model(*old(side)), old(orders)@, maker_side(ascending)),
        resting_ids_distinct(side_model(*old(side))),
        old(orders)@.contains_key(taker@),
        old(orders)@[taker@].remaining_qty >= incoming_qty,
        not_resting(side_model(*old(side)), taker@),
    ensures
        ({
            let s = book_sweep(side_model(*old(side)), incoming_qty as nat, limit, ascending);
            &&& side_model(*final(side)) == s.levels
            &&& rem == s.remaining
            &&& final(orders)@ == settle_all_orders(old(orders)@, taker@, s.trades)
            &&& fills_model(final(fills)@) == settle_all_fills(fills_model(old(fills)@), taker@, s.trades)
        }),
        final(orders).wf(),
        final(fills).wf(),
        orders_balanced(final(orders)@),
        side_backed(side_model(*final(side)), final(orders)@, maker_side(ascending)),
        resting_ids_distinct(side_model(*final(side))),
        final(orders)@[taker@].remaining_qty == old(orders)@[taker@].remaining_qty - (incoming_qty - rem),
        rem <= incoming_qty,
        others_unchanged(old(orders)@, final(orders)@, taker@, maker_side(ascending)),
{
    proof {
        lemma_prices_ordered();
    }
    let ghost l0 = side_model(*side);
    let ghost goal = book_sweep(l0, incoming_qty as nat, limit, ascending);
    let ghost o0 = orders@;
    let ghost f0 = fills_model(fills@);
    let ghost ms = maker_side(ascending);
    let ghost mut done: Seq<Trade> = Seq::empty();
    let mut rem: u64 = incoming_qty;
    loop
        invariant
            orders.wf(),
            fills.wf(),
            goal == book_sweep(l0, incoming_qty as nat, limit, ascending),
            ms == maker_side(ascending),
            ({
                let s = book_sweep(side_model(*side), rem as nat, limit, ascending);
                &&& s.levels == goal.levels
                &&& s.remaining == goal.remaining
                &&& done + s.trades == goal.trades
            }),
            orders@ == settle_all_orders(o0, taker@, done),
            fills_model(fills@) == settle_all_fills(f0, taker@, done),
            orders_balanced(orders@),
            side_backed(side_model(*side), orders@, ms),
            resting_ids_distinct(side_model(*side)),
            orders@.contains_key(taker@),
            orders@[taker@].remaining_qty == o0[taker@].remaining_qty - (incoming_qty - rem),
            rem <= incoming_qty,
            o0[taker@].remaining_qty >= incoming_qty,
            o0.contains_key(taker@),
            not_resting(side_model(*side), taker@),
            others_unchanged(o0, orders@, taker@, ms),
        ensures
            side_model(*side) == goal.levels,
            rem == goal.remaining,
            done == goal.trades,
        decreases side@.dom().len(),
    {
        if rem == 0 {
            proof {
                assert(done + book_sweep(side_model(*side), rem as nat, limit, ascending).trades =~= done);
            }
            break;
        }
        let best = if ascending {
            lowest_level(side)
        } else {
            highest_level(side)
        };
        let p: u64 = match best {
            Some(p) => p,
            None => {
                proof {
                    assert(side_model(*side).dom() =~= side@.dom());
                    assert(done + book_sweep(side_model(*side), rem as nat, limit, ascending).trades =~= done);
                }
                break;
            },
        };
        proof {
            lemma_best_unique(side_model(*side), p, ascending);
        }
        let crossing = if ascending {
            p <= limit
        } else {
            p >= limit
        };
        if !crossing {
            proof {
                assert(done + book_sweep(side_model(*side), rem as nat, limit, ascending).trades =~= done);
            }
            break;
        }
        let ghost lo = side_model(*side);
        assert(lo.dom() =~= side@.dom());
        assert(lo.dom().finite());
        assert(crosses(p, limit, ascending));
        let mut level: VecDeque<RestingOrder> = match side.remove(&p) {
            Some(l) => l,
            None => {
                break;
            },
        };
        let ghost lvl0 = level@;
        let ghost rem0 = rem;
        let ghost done0 = done;
        let ghost mut ldone: Seq<Trade> = Seq::empty();
        let ghost bs0 = book_sweep(lo, rem0 as nat, limit, ascending);
        assert(bs0.levels == goal.levels && bs0.remaining == goal.remaining && done0 + bs0.trades == goal.trades);
        assert(lo.dom().contains(p));
        assert(best_price(lo, ascending) == p);
        assert(side_model(*side) =~= lo.remove(p));
        assert(lo.remove(p).insert(p, level@) =~= lo);
        loop
            invariant
                orders.wf(),
                fills.wf(),
                side_model(*side) == lo.remove(p),
                lo.contains_key(p),
                lo[p] == lvl0,
                ({
                    let r = level_sweep(level@, rem as nat);
                    let r0 = level_sweep(lvl0, rem0 as nat);
                    &&& r.0 == r0.0
                    &&& r.1 == r0.1
                    &&& ldone + r.2 == r0.2
                }),
                done == done0 + ldone,
                ms == maker_side(ascending),
                orders@ == settle_all_orders(o0, taker@, done),
                fills_model(fills@) == settle_all_fills(f0, taker@, done),
                orders_balanced(orders@),
                side_backed(lo.remove(p).insert(p, level@), orders@, ms),
                resting_ids_distinct(lo.remove(p).insert(p, level@)),
                orders@.contains_key(taker@),
                orders@[taker@].remaining_qty == o0[taker@].remaining_qty - (incoming_qty - rem),
                rem <= incoming_qty,
                o0[taker@].remaining_qty >= incoming_qty,
                o0.contains_key(taker@),
                not_resting(lo.remove(p).insert(p, level@), taker@),
                others_unchanged(o0, orders@, taker@, ms),
            ensures
                rem == 0 || level@.len() == 0,
            decreases level@.len(),
        {
            if rem == 0 {
                break;
            }
            let ghost lv = level@;
            let ghost lm = lo.remove(p).insert(p, lv);
            let front: RestingOrder = match level.pop_front() {
                Some(f) => f,
                None => {
                    break;
                },
            };
            assert(lm[p][0] == front);
            let m: u64 = if rem < front.remaining_qty {
                rem
            } else {
                front.remaining_qty
            };
            let ghost t = Trade { maker: front, qty: m };
            let ghost opre = orders@;
            record_trade(orders, fills, taker, &front, m);
            proof {
                lemma_backed_after_trade(lm, p, m, opre, orders@, taker@, ms);
                assert(lo.remove(p).insert(p, level_after(lv, m)) =~= lm.insert(p, level_after(lm[p], m)));
            }
            proof {
                assert(done.push(t).drop_last() =~= done);
                done = done.push(t);
                ldone = ldone.push(t);
            }
            rem = rem - m;
            if front.remaining_qty > m {
                let kept = RestingOrder {
                    order_id: front.order_id,
                    user_id: front.user_id,
                    qty: front.qty,
                    price: front.price,
                    remaining_qty: front.remaining_qty - m,
                    symbol: front.symbol,
                };
                level.push_front(kept);
                assert(level@ =~= level_after(lv, m));
                break;
            }
            assert(level@ =~= level_after(lv, m));
        }
        proof {
            lemma_level_sweep_stops(lvl0, rem0 as nat);
            assert(level_sweep(level@, rem as nat).2 =~= Seq::<Trade>::empty());
            assert(ldone =~= level_sweep(lvl0, rem0 as nat).2);
        }
        if level.len() == 0 {
            assert(side_model(*side) =~= lo.remove(p));
            proof {
                lemma_backed_remove(lo.remove(p).insert(p, level@), p, orders@, ms, taker@);
                assert(lo.remove(p).insert(p, level@).remove(p) =~= lo.remove(p));
                let rest = book_sweep(lo.remove(p), rem as nat, limit, ascending);
                assert(bs0.trades == ldone + rest.trades);
                assert(done + rest.trades =~= done0 + bs0.trades);
            }
        } else {
            side.insert(p, level);
            assert(side_model(*side) =~= lo.remove(p).insert(p, level@));
            proof {
                assert(side_model(*side) =~= lo.insert(p, level@));
                assert(done + book_sweep(side_model(*side), rem as nat, limit, ascending).trades =~= done0 + bs0.trades);
            }
            break;
        }
    }
    rem
}

proof fn lemma_backed_frame(
    levels: Map<u64, Seq<RestingOrder>>,
    before: Map<Seq<char>, Order>,
    after: Map<Seq<char>, Order>,
    taker: Seq<char>,
    side: OrderSide,
    changed: OrderSide,
)
    requires
        side_backed(levels, before, side),
        not_resting(levels, taker),
        side != changed,
        others_unchanged(before, after, taker, changed),
    ensures
        side_backed(levels, after, side),
{
    assert forall|p: u64, i: int| #![trigger levels[p][i]] levels.contains_key(p) && 0 <= i < levels[p].len() implies {
        &&& after.contains_key(levels[p][i].order_id@)
        &&& after[levels[p][i].order_id@].remaining_qty == levels[p][i].remaining_qty
        &&& after[levels[p][i].order_id@].order_side == side
    } by {
        let k = levels[p][i].order_id@;
        assert(before.contains_key(k));
        assert(after[k] == before[k]);
    }
}

/// Makes sure `order_id` has an entry, possibly empty, among the fills.
fn open_fills(fills: &mut Table<Vec<Fill>>, order_id: &String)
    requires
        old(fills).wf(),
    ensures
        final(fills).wf(),
        fills_model(final(fills)@) == opened(fills_model(old(fills)@), order_id@),
{
    if !fills.contains_key(order_id.as_str()) {
        let empty: Vec<Fill> = Vec::new();
        assert(empty@.map_values(|f: Fill| f@) =~= Seq::<FillRecord>::empty());
        fills.insert(order_id.clone(), empty);
        assert(fills_model(fills@) =~= opened(fills_model(old(fills)@), order_id@));
    }
}

/// Matches an incoming buy of `incoming_qty` units, keyed `order_id`, against
/// the asks at prices up to `incoming_price`: lowest level first, oldest order
/// first within a level. Each execution is recorded in the fills of both
/// orders and in both order records; used-up asks and levels leave the book.
/// Returns the quantity left unmatched.
pub fn core_buy_logic(
    incoming_qty: u64,
    incoming_price: u64,
    book: &mut OrderBook,
    orders: &mut Table<Order>,
    fills: &mut Table<Vec<Fill>>,
    order_id: String,
) -> (r: Result<u64, EngineError>)
    requires
        old(orders).wf(),
        old(fills).wf(),
        orders_balanced(old(orders)@),
        side_backed(side_model(old(book).asks), old(orders)@, OrderSide::Sell),
        resting_ids_distinct(side_model(old(book).asks)),
        old(orders)@.contains_key(order_id@),
        old(orders)@[order_id@].remaining_qty >= incoming_qty,
        old(orders)@[order_id@].order_side == OrderSide::Buy || not_resting(side_model(old(book).asks), order_id@),
    ensures
        ({
            let s = book_sweep(side_model(old(book).asks), incoming_qty as nat, incoming_price, true);
            &&& r == Ok::<u64, EngineError>(s.remaining as u64)
            &&& side_model(final(book).asks) == s.levels
            &&& final(orders)@ == settle_all_orders(old(orders)@, order_id@, s.trades)
            &&& fills_model(final(fills)@) == settle_all_fills(
                opened(fills_model(old(fills)@), order_id@),
                order_id@,
                s.trades,
            )
        }),
        final(book).bids == old(book).bids,
        final(orders).wf(),
        final(fills).wf(),
        orders_balanced(final(orders)@),
        side_backed(side_model(final(book).asks), final(orders)@, OrderSide::Sell),
        resting_ids_distinct(side_model(final(book).asks)),
        book_consistent(old(orders)@, side_model(old(book).asks), side_model(old(book).bids)) && not_resting(
            side_model(old(book).bids),
            order_id@,
        ) ==> book_consistent(final(orders)@, side_model(final(book).asks), side_model(final(book).bids)),
        final(orders)@[order_id@].remaining_qty == old(orders)@[order_id@].remaining_qty - (incoming_qty - r->Ok_0),
        ({
            let l0 = side_model(old(book).asks);
            let s = book_sweep(l0, incoming_qty as nat, incoming_price, true);
            &&& s.remaining + traded(s.trades) == incoming_qty
            &&& forall|q: u64|
                l0.contains_key(q) && !crosses(q, incoming_price, true) ==> #[trigger] side_model(final(book).asks).contains_key(q)
                    && side_model(final(book).asks)[q] == l0[q]
            &&& forall|p: u64|
                #[trigger] is_best(l0, p, true) && crosses(p, incoming_price, true) && l0[p].len() > 0 && incoming_qty > 0
                    ==> s.trades.len() > 0 && s.trades[0].maker == l0[p][0]
            &&& resting_open(l0) ==> resting_open(side_model(final(book).asks))
        }),
        others_unchanged(old(orders)@, final(orders)@, order_id@, OrderSide::Sell),
{
    open_fills(fills, &order_id);
    let ghost o0 = orders@;
    proof {
        let lv = side_model(book.asks);
        if o0[order_id@].order_side == OrderSide::Buy {
            assert forall|p: u64, i: int| #![trigger lv[p][i]] lv.contains_key(p) && 0 <= i < lv[p].len() implies lv[p][
                i].order_id@ != order_id@ by {
                assert(o0[lv[p][i].order_id@].order_side != OrderSide::Buy);
            }
        }
    }
    let remaining = sweep_side(&mut book.asks, true, incoming_qty, incoming_price, orders, fills, &order_id);
    proof {
        if book_consistent(o0, side_model(old(book).asks), side_model(old(book).bids)) && not_resting(
            side_model(old(book).bids),
            order_id@,
        ) {
            lemma_backed_frame(side_model(book.bids), o0, orders@, order_id@, OrderSide::Buy, OrderSide::Sell);
        }
    }
    proof {
        let l0 = side_model(old(book).asks);
        assert(l0.dom().finite()) by {
            assert(l0.dom() =~= old(book).asks@.dom());
        }
        law_sweep_conserves_quantity(l0, incoming_qty as nat, incoming_price, true);
        assert forall|q: u64|
            l0.contains_key(q) && !crosses(q, incoming_price, true) implies #[trigger] side_model(book.asks).contains_key(q)
                && side_model(book.asks)[q] == l0[q] by {
            law_sweep_respects_limit(l0, incoming_qty as nat, incoming_price, true, q);
        }
        assert forall|p: u64|
            #[trigger] is_best(l0, p, true) && crosses(p, incoming_price, true) && l0[p].len() > 0 && incoming_qty > 0 implies {
            let s = book_sweep(l0, incoming_qty as nat, incoming_price, true);
            s.trades.len() > 0 && s.trades[0].maker == l0[p][0]
        } by {
            law_sweep_starts_with_oldest_best(l0, incoming_qty as nat, incoming_price, true, p);
        }
        if resting_open(l0) {
            law_sweep_leaves_open_orders(l0, incoming_qty as nat, incoming_price, true);
        }
    }
    Ok(remaining)
}

/// Matches an incoming sell of `incoming_qty` units, keyed `order_id`,
/// against the bids at prices down to `incoming_price`: highest level first,
/// oldest order first within a level. Each execution is recorded in the fills
/// of both orders and in both order records; used-up bids and levels leave the
/// book. Returns the quantity left unmatched.
pub fn core_sell_logic(
    incoming_qty: u64,
    incoming_price: u64,
    book: &mut OrderBook,
    orders: &mut Table<Order>,
    fills: &mut Table<Vec<Fill>>,
    order_id: String,
) -> (r: Result<u64, EngineError>)
    requires
        old(orders).wf(),
        old(fills).wf(),
        orders_balanced(old(orders)@),
        side_backed(side_model(old(book).bids), old(orders)@, OrderSide::Buy),
        resting_ids_distinct(side_model(old(book).bids)),
        old(orders)@.contains_key(order_id@),
        old(orders)@[order_id@].remaining_qty >= incoming_qty,
        old(orders)@[order_id@].order_side == OrderSide::Sell || not_resting(side_model(old(book).bids), order_id@),
    ensures
        ({
            let s = book_sweep(side_model(old(book).bids), incoming_qty as nat, incoming_price, false);
            &&& r == Ok::<u64, EngineError>(s.remaining as u64)
            &&& side_model(final(book).bids) == s.levels
            &&& final(orders)@ == settle_all_orders(old(orders)@, order_id@, s.trades)
            &&& fills_model(final(fills)@) == settle_all_fills(
                opened(fills_model(old(fills)@), order_id@),
                order_id@,
                s.trades,
            )
        }),
        final(book).asks == old(book).asks,
        final(orders).wf(),
        final(fills).wf(),
        orders_balanced(final(orders)@),
        side_backed(side_model(final(book).bids), final(orders)@, OrderSide::Buy),
        resting_ids_distinct(side_model(final(book).bids)),
        book_consistent(old(orders)@, side_model(old(book).asks), side_model(old(book).bids)) && not_resting(
            side_model(old(book).asks),
            order_id@,
        ) ==> book_consistent(final(orders)@, side_model(final(book).asks), side_model(final(book).bids)),
        final(orders)@[order_id@].remaining_qty == old(orders)@[order_id@].remaining_qty - (incoming_qty - r->Ok_0),
        ({
            let l0 = side_model(old(book).bids);
            let s = book_sweep(l0, incoming_qty as nat, incoming_price, false);
            &&& s.remaining + traded(s.trades) == incoming_qty
            &&& forall|q: u64|
                l0.contains_key(q) && !crosses(q, incoming_price, false) ==> #[trigger] side_model(final(book).bids).contains_key(q)
                    && side_model(final(book).bids)[q] == l0[q]
            &&& forall|p: u64|
                #[trigger] is_best(l0, p, false) && crosses(p, incoming_price, false) && l0[p].len() > 0 && incoming_qty > 0
                    ==> s.trades.len() > 0 && s.trades[0].maker == l0[p][0]
            &&& resting_open(l0) ==> resting_open(side_model(final(book).bids))
        }),
        others_unchanged(old(orders)@, final(orders)@, order_id@, OrderSide::Buy),
{
    open_fills(fills, &order_id);
    let ghost o0 = orders@;
    proof {
        let lv = side_model(book.bids);
        if o0[order_id@].order_side == OrderSide::Sell {
            assert forall|p: u64, i: int| #![trigger lv[p][i]] lv.contains_key(p) && 0 <= i < lv[p].len() implies lv[p][
                i].order_id@ != order_id@ by {
                assert(o0[lv[p][i].order_id@].order_side != OrderSide::Sell);
            }
        }
    }
    let remaining = sweep_side(&mut book.bids, false, incoming_qty, incoming_price, orders, fills, &order_id);
    proof {
        if book_consistent(o0, side_model(old(book).asks), side_model(old(book).bids)) && not_resting(
            side_model(old(book).asks),
            order_id@,
        ) {
            lemma_backed_frame(side_model(book.asks), o0, orders@, order_id@, OrderSide::Sell, OrderSide::Buy);
        }
    }
    proof {
        let l0 = side_model(old(book).bids);
        assert(l0.dom().finite()) by {
            assert(l0.dom() =~= old(book).bids@.dom());
        }
        law_sweep_conserves_quantity(l0, incoming_qty as nat, incoming_price, false);
        assert forall|q: u64|
            l0.contains_key(q) && !crosses(q, incoming_price, false) implies #[trigger] side_model(book.bids).contains_key(q)
                && side_model(book.bids)[q] == l0[q] by {
            law_sweep_respects_limit(l0, incoming_qty as nat, incoming_price, false, q);
        }
        assert forall|p: u64|
            #[trigger] is_best(l0, p, false) && crosses(p, incoming_price, false) && l0[p].len() > 0 && incoming_qty > 0 implies {
            let s = book_sweep(l0, incoming_qty as nat, incoming_price, false);
            s.trades.len() > 0 && s.trades[0].maker == l0[p][0]
        } by {
            law_sweep_starts_with_oldest_best(l0, incoming_qty as nat, incoming_price, false, p);
        }
        if resting_open(l0) {
            law_sweep_leaves_open_orders(l0, incoming_qty as nat, incoming_price, false);
        }
    }
    Ok(remaining)
}

} // verus!
