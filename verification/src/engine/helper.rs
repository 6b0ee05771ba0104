use std::collections::VecDeque;
use vstd::prelude::*;

use crate::engine::model::side_model;
use crate::engine::position::{abs, i64_fits, sign};
use crate::engine::types::{BalanceResponse, EngineError, OrderBook, Position, RestingOrder};
use crate::table::Table;

verus! {

broadcast use vstd::std_specs::btree::group_btree_axioms;

/// Whether an order of signed size `order_size` by `user` adds to the risk
/// the user carries, so that its margin has to be checked: always for a user
/// without a position; never when it closes the position exactly; always
/// when it turns the position around; otherwise when it does not shrink it.
pub open spec fn raises_risk(positions: Map<Seq<char>, Position>, order_size: i64, user: Seq<char>) -> bool {
    if !positions.contains_key(user) {
        true
    } else {
        let held = positions[user].size as int;
        let after = order_size + held;
        if after == 0 {
            false
        } else if sign(held) != sign(after) {
            true
        } else {
            abs(after) >= abs(held)
        }
    }
}

/// Whether the risk arithmetic for `order_size` and the position of `user`
/// stays within `i64`.
pub open spec fn risk_in_range(positions: Map<Seq<char>, Position>, order_size: i64, user: Seq<char>) -> bool {
    positions.contains_key(user) ==> {
        let held = positions[user].size as int;
        &&& held != i64::MIN
        &&& i64_fits(order_size + held)
        &&& order_size + held != i64::MIN
    }
}

/// Decides whether an order of signed size `order_size` by `user_id` adds to
/// the user's risk; see `raises_risk`.
pub fn risk_engine(positions: &Table<Position>, order_size: i64, user_id: &String) -> (output: bool)
    requires
        positions.wf(),
        risk_in_range(positions@, order_size, user_id@),
    ensures
        output == raises_risk(positions@, order_size, user_id@),
{
    let mut output: bool;
    match positions.get(user_id.as_str()) {
        Some(pos) => {
            let risk: i64 = order_size + pos.size;
            let risk_abs: i64 = if risk < 0 {
                -risk
            } else {
                risk
            };
            let held_abs: i64 = if pos.size < 0 {
                -pos.size
            } else {
                pos.size
            };
            if risk_abs < held_abs {
                output = false;
            } else {
                output = true;
            }
            let held_sign: i64 = if pos.size > 0 {
                1
            } else if pos.size < 0 {
                -1
            } else {
                0
            };
            let risk_sign: i64 = if risk > 0 {
                1
            } else if risk < 0 {
                -1
            } else {
                0
            };
            if held_sign != risk_sign {
                output = true;
            }
            if risk == 0 {
                output = false;
            }
        },
        None => {
            output = true;
        },
    };
    output
}

/// Margin that `size` units at `price` need under `leverage`: the notional
/// value divided by the leverage.
pub fn check_required_margin(size: u64, price: u64, leverage: u64) -> (amount_needed: u64)
    requires
        leverage > 0,
        size * price <= u64::MAX,
    ensures
        amount_needed == (size * price) / (leverage as int),
{
    let notional_value: u64 = size * price;
    notional_value / leverage
}

/// The side `levels` with `resting_order` queued last at its price.
pub open spec fn queued(levels: Map<u64, Seq<RestingOrder>>, resting_order: RestingOrder) -> Map<u64, Seq<RestingOrder>> {
    let p = resting_order.price;
    levels.insert(p, (if levels.contains_key(p) { levels[p] } else { Seq::empty() }).push(resting_order))
}

/// Queues `resting_order` last among the bids at its price.
pub fn add_in_bids(book: &mut OrderBook, resting_order: RestingOrder)
    ensures
        side_model(final(book).bids) == queued(side_model(old(book).bids), resting_order),
        final(book).asks == old(book).asks,
{
    proof {
        crate::engine::model::lemma_prices_ordered();
    }
    let price = resting_order.price;
    let mut bid_side: VecDeque<RestingOrder> = match book.bids.remove(&price) {
        Some(level) => level,
        None => VecDeque::new(),
    };
    bid_side.push_back(resting_order);
    book.bids.insert(price, bid_side);
    assert(side_model(book.bids) =~= queued(side_model(old(book).bids), resting_order));
}

/// Queues `resting_order` last among the asks at its price.
pub fn add_in_sorts(book: &mut OrderBook, resting_order: RestingOrder)
    ensures
        side_model(final(book).asks) == queued(side_model(old(book).asks), resting_order),
        final(book).bids == old(book).bids,
{
    proof {
        crate::engine::model::lemma_prices_ordered();
    }
    let price = resting_order.price;
    let mut ask_side: VecDeque<RestingOrder> = match book.asks.remove(&price) {
        Some(level) => level,
        None => VecDeque::new(),
    };
    ask_side.push_back(resting_order);
    book.asks.insert(price, ask_side);
    assert(side_model(book.asks) =~= queued(side_model(old(book).asks), resting_order));
}

/// Calls `chrono::Local::now` and renders it as text: the current local time.
/// Nothing is claimed of the text, which depends on the clock and time zone.
#[verifier::external_body]
pub fn get_time() -> (now: String) {
    chrono::Local::now().to_string()
}

/// What the engine makes of the balance keeper's answer to a balance query
/// for an order of `size` units at `price` with `leverage`; see
/// `margin_verdict`.
pub open spec fn margin_verdict_of(
    reply: Option<Result<BalanceResponse, EngineError>>,
    size: u64,
    price: u64,
    leverage: u64,
) -> Result<u64, EngineError> {
    match reply {
        None => Err(EngineError::BalanceThreadDead),
        Some(Err(e)) => Err(e),
        Some(Ok(b)) => if leverage == 0 || size * price > u64::MAX {
            Err(EngineError::ArithmeticError)
        } else if b.balance < (size * price) / (leverage as int) {
            Err(EngineError::NotEnoughBalance)
        } else {
            Ok(((size * price) / (leverage as int)) as u64)
        },
    }
}

/// What the engine makes of the balance keeper's answer to a wallet
/// movement; see `acknowledged`.
pub open spec fn acknowledgement(reply: Option<Result<BalanceResponse, EngineError>>) -> Result<(), EngineError> {
    match reply {
        None => Err(EngineError::BalanceThreadDead),
        Some(Err(e)) => Err(e),
        Some(Ok(_)) => Ok(()),
    }
}

/// What the engine makes of the balance keeper's answer to a balance query
/// for an order of `size` units at `price` with `leverage`: the margin to
/// lock, `size * price / leverage`, when the available funds cover it;
/// `NotEnoughBalance` when they do not; `ArithmeticError` when the margin
/// cannot be computed within `u64`; the keeper's own error, or
/// `BalanceThreadDead` when it never answered.
pub fn margin_verdict(reply: Option<Result<BalanceResponse, EngineError>>, size: u64, price: u64, leverage: u64) -> (r: Result<
    u64,
    EngineError,
>)
    ensures
        r == margin_verdict_of(reply, size, price, leverage),
{
    let balance = match reply {
        Some(Ok(b)) => b.balance,
        Some(Err(e)) => {
            return Err(e);
        },
        None => {
            return Err(EngineError::BalanceThreadDead);
        },
    };
    assert((size as u128) * (price as u128) <= 0xffff_ffff_ffff_ffffu128 * 0xffff_ffff_ffff_ffffu128)
        by (nonlinear_arith);
    if leverage == 0 || (size as u128) * (price as u128) > 0xffff_ffff_ffff_ffffu128 {
        return Err(EngineError::ArithmeticError);
    }
    let required_margin = check_required_margin(size, price, leverage);
    if balance < required_margin {
        return Err(EngineError::NotEnoughBalance);
    }
    Ok(required_margin)
}

/// What the engine makes of the balance keeper's answer to a wallet
/// movement: done, the keeper's own error, or `BalanceThreadDead` when it
/// never answered.
pub fn acknowledged(reply: Option<Result<BalanceResponse, EngineError>>) -> (r: Result<(), EngineError>)
    ensures
        r == acknowledgement(reply),
{
    match reply {
        Some(Ok(_)) => Ok(()),
        Some(Err(e)) => Err(e),
        None => Err(EngineError::BalanceThreadDead),
    }
}

} // verus!
