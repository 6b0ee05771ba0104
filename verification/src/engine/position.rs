use tokio::sync::mpsc::Sender;
use tokio::sync::oneshot;
use vstd::prelude::*;

use crate::channel::{reply_channel, wait_reply};
use crate::engine::check_balance::{call_of, reply_channel_of, send_to_keeper, KeeperCall};
use crate::engine::helper::get_time;
use crate::engine::model::{fills_model, FillRecord};
use crate::engine::types::{BalanceResponse, EngineError, Fill, Order, OrderSide, Position};
use crate::table::Table;
use crate::types::types::BalanceRequest;

verus! {

/// A position without its timestamp.
pub struct PositionRecord {
    pub order_id: Seq<char>,
    pub average_entry_price: u64,
    pub symbol: Seq<char>,
    pub margin: u64,
    pub size: i64,
    pub liquidation_price: u64,
    pub realized_pnl: Option<u64>,
    pub leverage: u64,
}

impl View for Position {
    type V = PositionRecord;

    open spec fn view(&self) -> PositionRecord {
        PositionRecord {
            order_id: self.order_id@,
            average_entry_price: self.average_entry_price,
            symbol: self.symbol@,
            margin: self.margin,
            size: self.size,
            liquidation_price: self.liquidation_price,
            realized_pnl: self.realized_pnl,
            leverage: self.leverage,
        }
    }
}

/// The positions of every user, without timestamps.
pub open spec fn positions_model(positions: Map<Seq<char>, Position>) -> Map<Seq<char>, PositionRecord> {
    positions.map_values(|p: Position| p@)
}

/// A wallet movement that a position change calls for.
#[derive(Clone, Copy, Debug, PartialEq, Eq, Structural)]
pub enum BalanceOp {
    /// Credit a realized profit.
    Add(u64),
    /// Debit a realized loss.
    Reduce(u64),
    /// Lock margin for a new exposure.
    Lock(u64),
    /// Release the margin of a closed exposure.
    Release(u64),
}

/// What becomes of the position of the user.
pub enum PositionChange {
    Replace(PositionRecord),
    Remove,
    Keep,
}

/// A position change and the wallet movements that go with it.
pub struct PositionPlan {
    pub change: PositionChange,
    pub ops: Seq<BalanceOp>,
}

/// Sum of price times quantity over `fs`.
pub open spec fn notional(fs: Seq<FillRecord>) -> int
    decreases fs.len(),
{
    if fs.len() == 0 {
        0
    } else {
        notional(fs.drop_last()) + fs.last().price * fs.last().qty
    }
}

/// Sum of quantities over `fs`.
pub open spec fn volume(fs: Seq<FillRecord>) -> int
    decreases fs.len(),
{
    if fs.len() == 0 {
        0
    } else {
        volume(fs.drop_last()) + fs.last().qty
    }
}

pub open spec fn u64_fits(x: int) -> bool {
    0 <= x <= u64::MAX
}

pub open spec fn i64_fits(x: int) -> bool {
    i64::MIN <= x <= i64::MAX
}

pub open spec fn sign(x: int) -> int {
    if x > 0 {
        1
    } else if x < 0 {
        -1
    } else {
        0
    }
}

pub open spec fn abs(x: int) -> int {
    if x < 0 {
        -x
    } else {
        x
    }
}

/// Price at which a position entered at `avg` with `leverage` is liquidated:
/// one leverage-th below the entry for a long, above it for a short.
pub open spec fn liquidation_level(avg: int, leverage: int, long: bool) -> int {
    if long {
        avg - avg / leverage
    } else {
        avg + avg / leverage
    }
}

/// A first position, opened by the executions of `order` totalling `n` in
/// notional and `t` in quantity.
pub open spec fn fresh_plan(order: Order, n: int, t: int) -> Option<PositionPlan> {
    let lev = order.leverage as int;
    let buy = order.order_side == OrderSide::Buy;
    if t == 0 || lev == 0 || t > i64::MAX {
        None
    } else {
        let avg = n / t;
        let liq = liquidation_level(avg, lev, buy);
        if !u64_fits(liq) {
            None
        } else {
            Some(
                PositionPlan {
                    change: PositionChange::Replace(
                        PositionRecord {
                            order_id: order.order_id@,
                            average_entry_price: avg as u64,
                            symbol: order.symbol@,
                            margin: (n / lev) as u64,
                            size: (if buy { t } else { -t }) as i64,
                            liquidation_price: liq as u64,
                            realized_pnl: None,
                            leverage: order.leverage,
                        },
                    ),
                    ops: Seq::empty(),
                },
            )
        }
    }
}

/// An existing position `p` grown by `order` on its own side: the entry price
/// becomes the quantity-weighted average of the old entry and the executions.
pub open spec fn same_side_plan(p: PositionRecord, order: Order, n: int, t: int) -> Option<PositionPlan> {
    let lev = order.leverage as int;
    let buy = order.order_side == OrderSide::Buy;
    let order_size = if buy { order.size as int } else { -(order.size as int) };
    let held = p.average_entry_price * abs(p.size as int);
    let nn = held + n;
    let den = abs(p.size as int) + t;
    let size = p.size + order_size;
    if !u64_fits(held) || !u64_fits(nn) || !u64_fits(den) || den == 0 || lev == 0 || !i64_fits(size) {
        None
    } else {
        let avg = nn / den;
        let liq = liquidation_level(avg, lev, buy);
        if !u64_fits(liq) {
            None
        } else {
            Some(
                PositionPlan {
                    change: PositionChange::Replace(
                        PositionRecord {
                            average_entry_price: avg as u64,
                            size: size as i64,
                            margin: (nn / lev) as u64,
                            liquidation_price: liq as u64,
                            ..p
                        },
                    ),
                    ops: Seq::empty(),
                },
            )
        }
    }
}

/// An existing position `p` met by `order` on the other side: it is reduced,
/// closed, or turned around. A close removes the position, releases its
/// whole margin and settles the realized result: a profit is credited, a
/// loss debited once the margin is back.
pub open spec fn opposite_plan(p: PositionRecord, order: Order, n: int, t: int) -> Option<PositionPlan> {
    let lev = order.leverage as int;
    let buy = order.order_side == OrderSide::Buy;
    let held = abs(p.size as int);
    if t == 0 || t > i64::MAX {
        None
    } else {
        let exit = n / t;
        let closed = if held < t { held } else { t };
        let long = p.size > 0;
        let entry = p.average_entry_price as int;
        if exit > i64::MAX || entry > i64::MAX || closed > i64::MAX {
            None
        } else {
            let pnl = if long { (exit - entry) * closed } else { (entry - exit) * closed };
            let signed_total = if buy { t } else { -t };
            let new = p.size + signed_total;
            if !i64_fits(pnl) || !i64_fits(new) {
                None
            } else if new == 0 {
                let ops = if pnl > 0 {
                    seq![BalanceOp::Add(pnl as u64), BalanceOp::Release(p.margin)]
                } else if pnl < 0 {
                    seq![BalanceOp::Release(p.margin), BalanceOp::Reduce((-pnl) as u64)]
                } else {
                    seq![BalanceOp::Release(p.margin)]
                };
                Some(PositionPlan { change: PositionChange::Remove, ops })
            } else if new == i64::MIN || lev == 0 {
                None
            } else if sign(new) == sign(p.size as int) {
                let remaining = entry * abs(new);
                let liq = liquidation_level(entry, lev, new > 0);
                if !u64_fits(remaining) || !u64_fits(liq) {
                    None
                } else {
                    Some(
                        PositionPlan {
                            change: PositionChange::Replace(
                                PositionRecord {
                                    margin: (remaining / lev) as u64,
                                    size: new as i64,
                                    liquidation_price: liq as u64,
                                    ..p
                                },
                            ),
                            ops: Seq::empty(),
                        },
                    )
                }
            } else {
                let flipped = exit * abs(new);
                let liq = liquidation_level(exit, lev, buy);
                if !u64_fits(flipped) || !u64_fits(liq) {
                    None
                } else {
                    let margin = (flipped / lev) as u64;
                    Some(
                        PositionPlan {
                            change: PositionChange::Replace(
                                PositionRecord {
                                    average_entry_price: exit as u64,
                                    size: new as i64,
                                    liquidation_price: liq as u64,
                                    margin,
                                    ..p
                                },
                            ),
                            ops: seq![BalanceOp::Release(p.margin), BalanceOp::Lock(margin)],
                        },
                    )
                }
            }
        }
    }
}

/// How the executions `fs` of `order` change the position of its user, with
/// the wallet movements they call for; `None` when an amount leaves the range
/// of its integer type or a divisor is zero.
pub open spec fn position_plan(positions: Map<Seq<char>, PositionRecord>, fs: Seq<FillRecord>, order: Order) -> Option<PositionPlan> {
    let n = notional(fs);
    let t = volume(fs);
    if !u64_fits(n) || !u64_fits(t) {
        None
    } else if positions.contains_key(order.user_id@) {
        let p = positions[order.user_id@];
        if p.size == i64::MIN || order.size > i64::MAX {
            None
        } else {
            let order_size = if order.order_side == OrderSide::Buy { order.size as int } else { -(order.size as int) };
            if sign(order_size) == sign(p.size as int) {
                same_side_plan(p, order, n, t)
            } else {
                opposite_plan(p, order, n, t)
            }
        }
    } else {
        fresh_plan(order, n, t)
    }
}

/// The positions after `change` to the position of `user`.
pub open spec fn apply_change(positions: Map<Seq<char>, PositionRecord>, user: Seq<char>, change: PositionChange) -> Map<Seq<char>, PositionRecord> {
    match change {
        PositionChange::Replace(r) => positions.insert(user, r),
        PositionChange::Remove => positions.remove(user),
        PositionChange::Keep => positions,
    }
}

/// The fills `fs` marked as taken into a position.
pub open spec fn consumed(fs: Seq<FillRecord>) -> Seq<FillRecord> {
    fs.map_values(|f: FillRecord| FillRecord { consumed: true, ..f })
}

proof fn lemma_totals_grow(fs: Seq<FillRecord>, i: int)
    requires
        0 <= i <= fs.len(),
    ensures
        notional(fs.take(i)) <= notional(fs),
        volume(fs.take(i)) <= volume(fs),
    decreases fs.len(),
{
    if i < fs.len() {
        assert(fs.drop_last().take(i) =~= fs.take(i));
        lemma_totals_grow(fs.drop_last(), i);
        assert(fs.last().price * fs.last().qty >= 0) by (nonlinear_arith);
    } else {
        assert(fs.take(i) =~= fs);
    }
}

/// Notional and quantity totals of `fs`, `None` when one leaves `u64`.
fn fill_totals(fs: &Vec<Fill>) -> (r: Option<(u64, u64)>)
    ensures
        ({
            let recs = fs@.map_values(|f: Fill| f@);
            match r {
                Some((n, t)) => u64_fits(notional(recs)) && u64_fits(volume(recs)) && n == notional(recs) && t
                    == volume(recs),
                None => !u64_fits(notional(recs)) || !u64_fits(volume(recs)),
            }
        }),
{
    let ghost recs = fs@.map_values(|f: Fill| f@);
    let mut n: u64 = 0;
    let mut t: u64 = 0;
    let mut i: usize = 0;
    while i < fs.len()
        invariant
            recs == fs@.map_values(|f: Fill| f@),
            i <= fs@.len(),
            n == notional(recs.take(i as int)),
            t == volume(recs.take(i as int)),
        decreases fs@.len() - i,
    {
        let price: u64 = fs[i].price;
        let qty: u64 = fs[i].qty;
        assert(recs.take(i + 1).drop_last() =~= recs.take(i as int));
        assert(recs[i as int].price == price && recs[i as int].qty == qty);
        assert((price as u128) * (qty as u128) <= 0xffff_ffff_ffff_ffffu128 * 0xffff_ffff_ffff_ffffu128) by (nonlinear_arith);
        let prod: u128 = (price as u128) * (qty as u128);
        let sum: u128 = (n as u128) + prod;
        let vol: u128 = (t as u128) + (qty as u128);
        if sum > 0xffff_ffff_ffff_ffffu128 || vol > 0xffff_ffff_ffff_ffffu128 {
            proof {
                lemma_totals_grow(recs, i + 1);
            }
            return None;
        }
        n = sum as u64;
        t = vol as u64;
        i = i + 1;
    }
    assert(recs.take(i as int) =~= recs);
    Some((n, t))
}

/// A position change ready to be stored.
enum Change {
    Replace(Position),
    Remove,
    Keep,
}

spec fn change_matches(c: Change, pc: PositionChange) -> bool {
    match (c, pc) {
        (Change::Replace(p), PositionChange::Replace(r)) => p@ == r,
        (Change::Remove, PositionChange::Remove) => true,
        (Change::Keep, PositionChange::Keep) => true,
        _ => false,
    }
}

spec fn plan_matches(r: Option<(Change, Vec<BalanceOp>)>, plan: Option<PositionPlan>) -> bool {
    match (r, plan) {
        (Some((c, ops)), Some(pl)) => change_matches(c, pl.change) && ops@ == pl.ops,
        (None, None) => true,
        _ => false,
    }
}

fn liquidation_exec(avg: u64, lev: u64, long: bool) -> (r: Option<u64>)
    requires
        lev > 0,
    ensures
        match r {
            Some(v) => u64_fits(liquidation_level(avg as int, lev as int, long)) && v == liquidation_level(
                avg as int,
                lev as int,
                long,
            ),
            None => !u64_fits(liquidation_level(avg as int, lev as int, long)),
        },
{
    let part: u64 = avg / lev;
    assert(part <= avg) by (nonlinear_arith)
        requires
            part == avg / lev,
            lev > 0,
    ;
    if long {
        Some(avg - part)
    } else {
        if avg > u64::MAX - part {
            None
        } else {
            Some(avg + part)
        }
    }
}

fn create_fresh_position(order: &Order, n: u64, t: u64) -> (r: Option<(Change, Vec<BalanceOp>)>)
    ensures
        plan_matches(r, fresh_plan(*order, n as int, t as int)),
{
    let lev: u64 = order.leverage;
    let buy = match order.order_side {
        OrderSide::Buy => true,
        OrderSide::Sell => false,
    };
    if t == 0 || lev == 0 || t > 0x7fff_ffff_ffff_ffffu64 {
        return None;
    }
    let avg: u64 = n / t;
    let liq: u64 = match liquidation_exec(avg, lev, buy) {
        Some(v) => v,
        None => {
            return None;
        },
    };
    let size: i64 = if buy {
        t as i64
    } else {
        -(t as i64)
    };
    let pos = Position {
        order_id: order.order_id.clone(),
        average_entry_price: avg,
        symbol: order.symbol.clone(),
        margin: n / lev,
        size,
        liquidation_price: liq,
        realized_pnl: None,
        time: get_time(),
        leverage: lev,
    };
    Some((Change::Replace(pos), Vec::new()))
}

fn abs_exec(x: i64) -> (r: u64)
    requires
        x != i64::MIN,
    ensures
        r == abs(x as int),
{
    if x < 0 {
        (-x) as u64
    } else {
        x as u64
    }
}

fn same_side_exec(p: &Position, order: &Order, n: u64, t: u64) -> (r: Option<(Change, Vec<BalanceOp>)>)
    requires
        p.size != i64::MIN,
        order.size <= i64::MAX,
    ensures
        plan_matches(r, same_side_plan(p@, *order, n as int, t as int)),
{
    let lev: u64 = order.leverage;
    let buy = match order.order_side {
        OrderSide::Buy => true,
        OrderSide::Sell => false,
    };
    let held_qty: u64 = abs_exec(p.size);
    assert((p.average_entry_price as u128) * (held_qty as u128) <= 0xffff_ffff_ffff_ffffu128
        * 0xffff_ffff_ffff_ffffu128) by (nonlinear_arith);
    let held: u128 = (p.average_entry_price as u128) * (held_qty as u128);
    let nn: u128 = held + (n as u128);
    let den: u128 = (held_qty as u128) + (t as u128);
    let order_size: i128 = if buy {
        order.size as i128
    } else {
        -(order.size as i128)
    };
    let size: i128 = (p.size as i128) + order_size;
    if held > 0xffff_ffff_ffff_ffffu128 || nn > 0xffff_ffff_ffff_ffffu128 || den > 0xffff_ffff_ffff_ffffu128
        || den == 0 || lev == 0 || size < -0x8000_0000_0000_0000i128 || size > 0x7fff_ffff_ffff_ffffi128 {
        return None;
    }
    let avg: u64 = (nn / den) as u64;
    let liq: u64 = match liquidation_exec(avg, lev, buy) {
        Some(v) => v,
        None => {
            return None;
        },
    };
    let pos = Position {
        order_id: p.order_id.clone(),
        average_entry_price: avg,
        symbol: p.symbol.clone(),
        margin: (nn as u64) / lev,
        size: size as i64,
        liquidation_price: liq,
        realized_pnl: p.realized_pnl,
        time: get_time(),
        leverage: p.leverage,
    };
    Some((Change::Replace(pos), Vec::new()))
}

fn opposite_exec(p: &Position, order: &Order, n: u64, t: u64) -> (r: Option<(Change, Vec<BalanceOp>)>)
    requires
        p.size != i64::MIN,
    ensures
        plan_matches(r, opposite_plan(p@, *order, n as int, t as int)),
{
    let lev: u64 = order.leverage;
    let buy = match order.order_side {
        OrderSide::Buy => true,
        OrderSide::Sell => false,
    };
    let held: u64 = abs_exec(p.size);
    if t == 0 || t > 0x7fff_ffff_ffff_ffffu64 {
        return None;
    }
    let exit: u64 = n / t;
    let closed: u64 = if held < t {
        held
    } else {
        t
    };
    let long = p.size > 0;
    let entry: u64 = p.average_entry_price;
    if exit > 0x7fff_ffff_ffff_ffffu64 || entry > 0x7fff_ffff_ffff_ffffu64 || closed > 0x7fff_ffff_ffff_ffffu64 {
        return None;
    }
    let diff: i128 = if long {
        (exit as i128) - (entry as i128)
    } else {
        (entry as i128) - (exit as i128)
    };
    assert(-0x8000_0000_0000_0000i128 <= diff <= 0x7fff_ffff_ffff_ffffi128);
    assert(-0x8000_0000_0000_0000i128 * 0x7fff_ffff_ffff_ffffi128 <= diff * (closed as i128)
        <= 0x7fff_ffff_ffff_ffffi128 * 0x7fff_ffff_ffff_ffffi128) by (nonlinear_arith)
        requires
            -0x8000_0000_0000_0000i128 <= diff <= 0x7fff_ffff_ffff_ffffi128,
            0 <= closed <= 0x7fff_ffff_ffff_ffffu64,
    ;
    let pnl: i128 = diff * (closed as i128);
    let signed_total: i128 = if buy {
        t as i128
    } else {
        -(t as i128)
    };
    let new: i128 = (p.size as i128) + signed_total;
    if pnl < -0x8000_0000_0000_0000i128 || pnl > 0x7fff_ffff_ffff_ffffi128 || new < -0x8000_0000_0000_0000i128
        || new > 0x7fff_ffff_ffff_ffffi128 {
        return None;
    }
    if new == 0 {
        let mut ops: Vec<BalanceOp> = Vec::new();
        if pnl > 0 {
            ops.push(BalanceOp::Add(pnl as u64));
            ops.push(BalanceOp::Release(p.margin));
            assert(ops@ =~= seq![BalanceOp::Add(pnl as u64), BalanceOp::Release(p.margin)]);
        } else if pnl < 0 {
            ops.push(BalanceOp::Release(p.margin));
            ops.push(BalanceOp::Reduce((-pnl) as u64));
            assert(ops@ =~= seq![BalanceOp::Release(p.margin), BalanceOp::Reduce((-pnl) as u64)]);
        } else {
            ops.push(BalanceOp::Release(p.margin));
            assert(ops@ =~= seq![BalanceOp::Release(p.margin)]);
        }
        return Some((Change::Remove, ops));
    }
    if new == -0x8000_0000_0000_0000i128 || lev == 0 {
        return None;
    }
    let new_size: i64 = new as i64;
    let new_abs: u64 = abs_exec(new_size);
    if (new > 0 && p.size > 0) || (new < 0 && p.size < 0) {
        assert((entry as u128) * (new_abs as u128) <= 0xffff_ffff_ffff_ffffu128 * 0xffff_ffff_ffff_ffffu128) by (nonlinear_arith);
        let remaining: u128 = (entry as u128) * (new_abs as u128);
        if remaining > 0xffff_ffff_ffff_ffffu128 {
            return None;
        }
        let liq: u64 = match liquidation_exec(entry, lev, new > 0) {
            Some(v) => v,
            None => {
                return None;
            },
        };
        let pos = Position {
            order_id: p.order_id.clone(),
            average_entry_price: p.average_entry_price,
            symbol: p.symbol.clone(),
            margin: (remaining as u64) / lev,
            size: new_size,
            liquidation_price: liq,
            realized_pnl: p.realized_pnl,
            time: get_time(),
            leverage: p.leverage,
        };
        Some((Change::Replace(pos), Vec::new()))
    } else {
        assert((exit as u128) * (new_abs as u128) <= 0xffff_ffff_ffff_ffffu128 * 0xffff_ffff_ffff_ffffu128) by (nonlinear_arith);
        let flipped: u128 = (exit as u128) * (new_abs as u128);
        if flipped > 0xffff_ffff_ffff_ffffu128 {
            return None;
        }
        let liq: u64 = match liquidation_exec(exit, lev, buy) {
            Some(v) => v,
            None => {
                return None;
            },
        };
        let margin: u64 = (flipped as u64) / lev;
        let pos = Position {
            order_id: p.order_id.clone(),
            average_entry_price: exit,
            symbol: p.symbol.clone(),
            margin,
            size: new_size,
            liquidation_price: liq,
            realized_pnl: p.realized_pnl,
            time: get_time(),
            leverage: p.leverage,
        };
        let mut ops: Vec<BalanceOp> = Vec::new();
        ops.push(BalanceOp::Release(p.margin));
        ops.push(BalanceOp::Lock(margin));
        assert(ops@ =~= seq![BalanceOp::Release(p.margin), BalanceOp::Lock(margin)]);
        Some((Change::Replace(pos), ops))
    }
}

/// Marks every fill recorded under `order_id` as taken into a position.
fn mark_consumed(fills: &mut Table<Vec<Fill>>, order_id: &String)
    requires
        old(fills).wf(),
        old(fills)@.contains_key(order_id@),
    ensures
        final(fills).wf(),
        fills_model(final(fills)@) == fills_model(old(fills)@).insert(
            order_id@,
            consumed(fills_model(old(fills)@)[order_id@]),
        ),
{
    let ghost fm = fills_model(fills@);
    match fills.remove_entry(order_id.as_str()) {
        Some((key, list)) => {
            let mut list = list;
            let ghost start = list@;
            let mut i: usize = 0;
            while i < list.len()
                invariant
                    i <= list@.len(),
                    list@.len() == start.len(),
                    forall|j: int| 0 <= j < i ==> #[trigger] list@[j]@ == (FillRecord { consumed: true, ..start[j]@ }),
                    forall|j: int| i <= j < list@.len() ==> #[trigger] list@[j] == start[j],
                decreases list@.len() - i,
            {
                list[i].consumed = true;
                i = i + 1;
            }
            assert(list@.map_values(|f: Fill| f@) =~= consumed(start.map_values(|f: Fill| f@)));
            fills.insert(key, list);
            assert(fills_model(fills@) =~= fm.insert(order_id@, consumed(fm[order_id@])));
        },
        None => {},
    }
}

/// Folds the executions recorded for `order_id` into the position of the
/// order's user: opens, grows, reduces, closes or turns it around, and marks
/// those fills as taken. Returns the wallet movements the change calls for.
/// Nothing changes when the order or its fills are unknown, or when an
/// amount leaves the range of its integer type or a divisor is zero.
pub fn apply_position_update(
    positions: &mut Table<Position>,
    fills: &mut Table<Vec<Fill>>,
    order_id: &String,
    orders: &Table<Order>,
) -> (r: Result<Vec<BalanceOp>, EngineError>)
    requires
        old(positions).wf(),
        old(fills).wf(),
        orders.wf(),
    ensures
        final(positions).wf(),
        final(fills).wf(),
        !(old(fills)@.contains_key(order_id@) && orders@.contains_key(order_id@)) ==> {
            &&& r matches Ok(ops) && ops@.len() == 0
            &&& final(positions)@ == old(positions)@
            &&& final(fills)@ == old(fills)@
        },
        old(fills)@.contains_key(order_id@) && orders@.contains_key(order_id@) ==> {
            let order = orders@[order_id@];
            let fs = fills_model(old(fills)@)[order_id@];
            match position_plan(positions_model(old(positions)@), fs, order) {
                None => {
                    &&& r == Err::<Vec<BalanceOp>, EngineError>(EngineError::ArithmeticError)
                    &&& final(positions)@ == old(positions)@
                    &&& final(fills)@ == old(fills)@
                },
                Some(plan) => {
                    &&& r matches Ok(ops) && ops@ == plan.ops
                    &&& positions_model(final(positions)@) == apply_change(
                        positions_model(old(positions)@),
                        order.user_id@,
                        plan.change,
                    )
                    &&& fills_model(final(fills)@) == fills_model(old(fills)@).insert(order_id@, consumed(fs))
                },
            }
        },
{
    let order: &Order = match orders.get(order_id.as_str()) {
        Some(o) => o,
        None => {
            return Ok(Vec::new());
        },
    };
    let (n, t) = match fills.get(order_id.as_str()) {
        None => {
            return Ok(Vec::new());
        },
        Some(fs) => match fill_totals(fs) {
            Some(totals) => totals,
            None => {
                return Err(EngineError::ArithmeticError);
            },
        },
    };
    let ghost pm = positions_model(positions@);
    let plan = match positions.get(order.user_id.as_str()) {
        Some(p) => {
            assert(pm[order.user_id@] == p@);
            if p.size == i64::MIN || order.size > 0x7fff_ffff_ffff_ffffu64 {
                None
            } else {
                let order_sign: i8 = if order.size == 0 {
                    0
                } else {
                    match order.order_side {
                        OrderSide::Buy => 1,
                        OrderSide::Sell => -1,
                    }
                };
                let held_sign: i8 = if p.size > 0 {
                    1
                } else if p.size < 0 {
                    -1
                } else {
                    0
                };
                if order_sign == held_sign {
                    same_side_exec(p, order, n, t)
                } else {
                    opposite_exec(p, order, n, t)
                }
            }
        },
        None => create_fresh_position(order, n, t),
    };
    let (change, ops) = match plan {
        Some(pl) => pl,
        None => {
            return Err(EngineError::ArithmeticError);
        },
    };
    match change {
        Change::Replace(pos) => {
            positions.insert(order.user_id.clone(), pos);
            assert(positions_model(positions@) =~= pm.insert(order.user_id@, pos@));
        },
        Change::Remove => {
            positions.remove(order.user_id.as_str());
            assert(positions_model(positions@) =~= pm.remove(order.user_id@));
        },
        Change::Keep => {},
    }
    mark_consumed(fills, order_id);
    Ok(ops)
}

/// What wallet movement `op` of `user` asks of the balance keeper.
pub open spec fn op_call(op: BalanceOp, user: Seq<char>) -> KeeperCall {
    match op {
        BalanceOp::Add(amount) => KeeperCall::Add(user, amount),
        BalanceOp::Reduce(amount) => KeeperCall::Reduce(user, amount),
        BalanceOp::Lock(amount) => KeeperCall::Lock(user, amount),
        BalanceOp::Release(amount) => KeeperCall::Release(user, amount),
    }
}

/// The requests for the wallet movements `ops` of `user`, in order.
pub open spec fn op_calls(ops: Seq<BalanceOp>, user: Seq<char>) -> Seq<KeeperCall> {
    ops.map_values(|op: BalanceOp| op_call(op, user))
}

/// The balance keeper request for wallet movement `op` of `user_id`, answered
/// on `response_tx`.
pub fn keeper_request(
    op: BalanceOp,
    user_id: &String,
    response_tx: oneshot::Sender<Result<BalanceResponse, EngineError>>,
) -> (req: BalanceRequest)
    ensures
        call_of(req) == op_call(op, user_id@),
        reply_channel_of(req) == response_tx,
{
    match op {
        BalanceOp::Add(amount) => BalanceRequest::AddBalance { user_id: user_id.clone(), amount, response_tx },
        BalanceOp::Reduce(amount) => BalanceRequest::ReduceBalance { user_id: user_id.clone(), amount, response_tx },
        BalanceOp::Lock(amount) => BalanceRequest::LockMargin { user_id: user_id.clone(), amount, response_tx },
        BalanceOp::Release(amount) => BalanceRequest::ReleaseMargin { user_id: user_id.clone(), amount, response_tx },
    }
}

/// Sends the wallet movements `ops` of `user_id` to the balance keeper, one
/// at a time, waiting for each answer. Returns what was asked, in order.
fn settle_wallet(balance_tx: &Sender<BalanceRequest>, user_id: &String, ops: &Vec<BalanceOp>) -> (posted: Ghost<
    Seq<KeeperCall>,
>)
    ensures
        posted@ == op_calls(ops@, user_id@),
{
    let ghost mut asked: Seq<KeeperCall> = Seq::empty();
    let mut i: usize = 0;
    while i < ops.len()
        invariant
            i <= ops@.len(),
            asked == op_calls(ops@.take(i as int), user_id@),
        decreases ops@.len() - i,
    {
        let (tx, rx) = reply_channel();
        let request = keeper_request(ops[i], user_id, tx);
        let sent = send_to_keeper(balance_tx, request);
        let _answer = wait_reply(rx);
        proof {
            assert(op_calls(ops@.take(i + 1), user_id@) =~= asked.push(sent@));
            asked = asked.push(sent@);
        }
        i = i + 1;
    }
    assert(ops@.take(i as int) =~= ops@);
    Ghost(asked)
}

/// How folding the executions of `order_id` changes the positions and fills:
/// `positions1`/`fills1` with result `r`, from `positions0`/`fills0`.
pub open spec fn position_settled(
    positions0: Map<Seq<char>, Position>,
    fills0: Map<Seq<char>, Vec<Fill>>,
    orders: Map<Seq<char>, Order>,
    order_id: Seq<char>,
    positions1: Map<Seq<char>, Position>,
    fills1: Map<Seq<char>, Vec<Fill>>,
    r: Result<(), EngineError>,
) -> bool {
    &&& !(fills0.contains_key(order_id) && orders.contains_key(order_id)) ==> {
        &&& r == Ok::<(), EngineError>(())
        &&& positions1 == positions0
        &&& fills1 == fills0
    }
    &&& fills0.contains_key(order_id) && orders.contains_key(order_id) ==> {
        let order = orders[order_id];
        let fs = fills_model(fills0)[order_id];
        match position_plan(positions_model(positions0), fs, order) {
            None => {
                &&& r == Err::<(), EngineError>(EngineError::ArithmeticError)
                &&& positions1 == positions0
                &&& fills1 == fills0
            },
            Some(plan) => {
                &&& r == Ok::<(), EngineError>(())
                &&& positions_model(positions1) == apply_change(positions_model(positions0), order.user_id@, plan.change)
                &&& fills_model(fills1) == fills_model(fills0).insert(order_id, consumed(fs))
            },
        }
    }
}

/// The requests that folding the executions of `order_id` sends to the
/// balance keeper: the wallet movements of the position change, for the
/// order's user; none when nothing is folded.
pub open spec fn position_calls(
    positions0: Map<Seq<char>, Position>,
    fills0: Map<Seq<char>, Vec<Fill>>,
    orders: Map<Seq<char>, Order>,
    order_id: Seq<char>,
) -> Seq<KeeperCall> {
    if fills0.contains_key(order_id) && orders.contains_key(order_id) {
        match position_plan(positions_model(positions0), fills_model(fills0)[order_id], orders[order_id]) {
            Some(plan) => op_calls(plan.ops, orders[order_id].user_id@),
            None => Seq::empty(),
        }
    } else {
        Seq::empty()
    }
}

/// Folds the executions of `order_id` into its user's position, as
/// `apply_position_update` does, then sends the wallet movements that the
/// change calls for to the balance keeper, in order. Returns the result with
/// the requests sent.
pub fn settle_position(
    positions: &mut Table<Position>,
    fills: &mut Table<Vec<Fill>>,
    order_id: &String,
    orders: &Table<Order>,
    balance_tx: &Sender<BalanceRequest>,
) -> (out: (Result<(), EngineError>, Ghost<Seq<KeeperCall>>))
    requires
        old(positions).wf(),
        old(fills).wf(),
        orders.wf(),
    ensures
        final(positions).wf(),
        final(fills).wf(),
        position_settled(old(positions)@, old(fills)@, orders@, order_id@, final(positions)@, final(fills)@, out.0),
        out.1@ == position_calls(old(positions)@, old(fills)@, orders@, order_id@),
{
    let ops = match apply_position_update(positions, fills, order_id, orders) {
        Ok(ops) => ops,
        Err(e) => {
            return (Err(e), Ghost(Seq::empty()));
        },
    };
    let mut posted: Ghost<Seq<KeeperCall>> = Ghost(Seq::empty());
    if ops.len() > 0 {
        match orders.get(order_id.as_str()) {
            Some(order) => {
                posted = settle_wallet(balance_tx, &order.user_id, &ops);
            },
            None => {},
        }
    }
    proof {
        if ops@.len() == 0 {
            assert(op_calls(ops@, orders@[order_id@].user_id@) =~= Seq::<KeeperCall>::empty());
        }
    }
    (Ok(()), posted)
}

/// Folds the executions of `order_id` into its user's position and sends the
/// wallet movements that the change calls for to the balance keeper; see
/// `settle_position`. The order records are not changed.
pub fn check_positions(
    positions: &mut Table<Position>,
    fills: &mut Table<Vec<Fill>>,
    order_id: String,
    orders: &mut Table<Order>,
    balance_tx: &Sender<BalanceRequest>,
) -> (r: Result<(), EngineError>)
    requires
        old(positions).wf(),
        old(fills).wf(),
        old(orders).wf(),
    ensures
        final(positions).wf(),
        final(fills).wf(),
        *final(orders) == *old(orders),
        position_settled(old(positions)@, old(fills)@, old(orders)@, order_id@, final(positions)@, final(fills)@, r),
{
    settle_position(positions, fills, &order_id, orders, balance_tx).0
}

} // verus!
