use std::collections::{BTreeMap, HashMap, VecDeque};
use vstd::prelude::*;

use crate::engine::core_matching::{highest_level, lowest_level};
use crate::engine::model::{is_best, lemma_prices_ordered, side_model};
use crate::engine::types::{DepthResponse, EngineError, OrderBook, RestingOrder};

verus! {

broadcast use {vstd::std_specs::btree::group_btree_axioms, vstd::std_specs::hash::group_hash_axioms};

/// Open quantity of a price level.
pub open spec fn level_total(level: Seq<RestingOrder>) -> int
    decreases level.len(),
{
    if level.len() == 0 {
        0
    } else {
        level_total(level.drop_last()) + level.last().remaining_qty
    }
}

/// Number of levels of `levels` that an incoming order meets before `p`:
/// lower prices for the asks (`ascending`), higher ones for the bids.
pub open spec fn rank(levels: Map<u64, Seq<RestingOrder>>, p: u64, ascending: bool) -> nat {
    levels.dom().filter(|q: u64| if ascending { q < p } else { q > p }).len()
}

/// The ten best levels of a side, each with its open quantity.
pub open spec fn depth_view(levels: Map<u64, Seq<RestingOrder>>, ascending: bool) -> Map<u64, u64> {
    Map::new(
        |p: u64| levels.contains_key(p) && rank(levels, p, ascending) < 10,
        |p: u64| level_total(levels[p]) as u64,
    )
}

/// The open quantity of each of the ten best levels fits in `u64`.
pub open spec fn depth_in_range(levels: Map<u64, Seq<RestingOrder>>, ascending: bool) -> bool {
    forall|p: u64|
        levels.contains_key(p) && rank(levels, p, ascending) < 10 ==> #[trigger] level_total(levels[p]) <= u64::MAX
}

proof fn lemma_total_grows(level: Seq<RestingOrder>, i: int)
    requires
        0 <= i <= level.len(),
    ensures
        level_total(level.take(i)) <= level_total(level),
    decreases level.len(),
{
    if i < level.len() {
        assert(level.drop_last().take(i) =~= level.take(i));
        lemma_total_grows(level.drop_last(), i);
    } else {
        assert(level.take(i) =~= level);
    }
}

/// Open quantity of `level`, `None` when it does not fit in `u64`.
fn sum_level(level: &VecDeque<RestingOrder>) -> (total: Option<u64>)
    ensures
        match total {
            Some(t) => t == level_total(level@),
            None => level_total(level@) > u64::MAX,
        },
{
    let mut total: u64 = 0;
    let mut i: usize = 0;
    while i < level.len()
        invariant
            i <= level@.len(),
            total == level_total(level@.take(i as int)),
        decreases level@.len() - i,
    {
        assert(level@.take(i + 1).drop_last() =~= level@.take(i as int));
        let qty: u64 = level[i].remaining_qty;
        if (total as u128) + (qty as u128) > 0xffff_ffff_ffff_ffffu128 {
            proof {
                lemma_total_grows(level@, i + 1);
            }
            return None;
        }
        total = total + qty;
        i = i + 1;
    }
    assert(level@.take(i as int) =~= level@);
    Some(total)
}

/// The ten best levels of `side` with their open quantities; `None` when
/// one of those quantities does not fit in `u64`.
fn top_levels(side: &BTreeMap<u64, VecDeque<RestingOrder>>, ascending: bool) -> (depth: Option<HashMap<u64, u64>>)
    ensures
        match depth {
            Some(d) => depth_in_range(side_model(*side), ascending) && d@ == depth_view(side_model(*side), ascending),
            None => !depth_in_range(side_model(*side), ascending),
        },
{
    proof {
        lemma_prices_ordered();
    }
    let ghost lm = side_model(*side);
    let mut rest = side.clone();
    let mut depth: HashMap<u64, u64> = HashMap::new();
    let mut taken: u64 = 0;
    let ghost mut seen: Set<u64> = Set::empty();
    assert(side_model(rest) =~= lm);
    loop
        invariant
            lm == side_model(*side),
            seen.finite(),
            seen.len() == taken,
            taken <= 10,
            forall|q: u64| #[trigger] side_model(rest).contains_key(q) <==> lm.contains_key(q) && !seen.contains(q),
            forall|q: u64| #[trigger] side_model(rest).contains_key(q) ==> side_model(rest)[q] == lm[q],
            forall|q: u64| #[trigger] seen.contains(q) ==> lm.contains_key(q) && rank(lm, q, ascending) < taken,
            forall|e: u64, q: u64|
                #[trigger] seen.contains(e) && #[trigger] side_model(rest).contains_key(q) ==> if ascending { e < q } else { e > q },
            depth@ == Map::new(|q: u64| seen.contains(q), |q: u64| level_total(lm[q]) as u64),
            forall|q: u64| #[trigger] seen.contains(q) ==> level_total(lm[q]) <= u64::MAX,
        ensures
            forall|q: u64| #[trigger] side_model(rest).contains_key(q) ==> rank(lm, q, ascending) >= 10,
        decreases 10 - taken,
    {
        if taken >= 10 {
            proof {
                assert forall|q: u64| #[trigger] side_model(rest).contains_key(q) implies rank(lm, q, ascending) >= 10 by {
                    let below = lm.dom().filter(|x: u64| if ascending { x < q } else { x > q });
                    assert(lm.dom() =~= side@.dom());
                    assert(below.subset_of(lm.dom()));
                    vstd::set_lib::lemma_len_subset(below, lm.dom());
                    assert(seen.subset_of(below));
                    vstd::set_lib::lemma_len_subset(seen, below);
                }
            }
            break;
        }
        let best = if ascending {
            lowest_level(&rest)
        } else {
            highest_level(&rest)
        };
        let p: u64 = match best {
            Some(p) => p,
            None => {
                assert(side_model(rest).dom() =~= rest@.dom());
                break;
            },
        };
        let ghost below = lm.dom().filter(|q: u64| if ascending { q < p } else { q > p });
        proof {
            assert(below =~= seen) by {
                assert forall|q: u64| below.contains(q) implies seen.contains(q) by {
                    if !seen.contains(q) {
                        assert(side_model(rest).contains_key(q));
                    }
                }
                assert forall|q: u64| seen.contains(q) implies below.contains(q) by {
                    assert(side_model(rest).contains_key(p));
                }
            }
            assert(rank(lm, p, ascending) == taken);
            assert(lm.contains_key(p));
        }
        proof {
            lemma_prices_ordered();
        }
        let ghost rest_before = side_model(rest);
        let level = match rest.remove(&p) {
            Some(l) => l,
            None => {
                break;
            },
        };
        assert(level@ == lm[p]);
        assert(side_model(rest) =~= rest_before.remove(p));
        let total: u64 = match sum_level(&level) {
            Some(t) => t,
            None => {
                return None;
            },
        };
        depth.insert(p, total);
        proof {
            seen = seen.insert(p);
            assert(depth@ =~= Map::new(|q: u64| seen.contains(q), |q: u64| level_total(lm[q]) as u64));
        }
        taken = taken + 1;
    }
    proof {
        assert forall|q: u64| lm.contains_key(q) && rank(lm, q, ascending) < 10 implies seen.contains(q) by {
            if !seen.contains(q) {
                assert(side_model(rest).contains_key(q));
            }
        }
    }
    assert forall|q: u64| lm.contains_key(q) && rank(lm, q, ascending) < 10 implies #[trigger] level_total(lm[q]) <= u64::MAX by {
        assert(seen.contains(q));
    }
    assert(depth@ =~= depth_view(lm, ascending));
    Some(depth)
}

/// The ten lowest ask levels and the ten highest bid levels of `book`, each
/// with the open quantity resting there.
pub fn get_depth(book: &OrderBook) -> (depth: DepthResponse)
    requires
        depth_in_range(side_model(book.asks), true),
        depth_in_range(side_model(book.bids), false),
    ensures
        depth.success,
        depth.asks@ == depth_view(side_model(book.asks), true),
        depth.bids@ == depth_view(side_model(book.bids), false),
{
    let asks_hash = match top_levels(&book.asks, true) {
        Some(d) => d,
        None => HashMap::new(),
    };
    let bids_hash = match top_levels(&book.bids, false) {
        Some(d) => d,
        None => HashMap::new(),
    };
    DepthResponse { success: true, bids: bids_hash, asks: asks_hash }
}

/// The reply to a depth query on `book`: the ten best levels of each side
/// with their open quantities, or `ArithmeticError` when the open quantity of
/// one of them does not fit in `u64`.
pub open spec fn depth_reply(book: OrderBook, r: Result<DepthResponse, EngineError>) -> bool {
    let fits = depth_in_range(side_model(book.asks), true) && depth_in_range(side_model(book.bids), false);
    &&& fits ==> (r matches Ok(depth) && depth.success && depth.asks@ == depth_view(side_model(book.asks), true)
        && depth.bids@ == depth_view(side_model(book.bids), false))
    &&& !fits ==> r == Err::<DepthResponse, EngineError>(EngineError::ArithmeticError)
}

/// The depth of `book` as `get_depth` gives it, or `ArithmeticError` when the
/// open quantity of one of the ten best levels of a side does not fit in `u64`.
pub fn depth_snapshot(book: &OrderBook) -> (r: Result<DepthResponse, EngineError>)
    ensures
        depth_reply(*book, r),
{
    let asks_hash = match top_levels(&book.asks, true) {
        Some(d) => d,
        None => {
            return Err(EngineError::ArithmeticError);
        },
    };
    let bids_hash = match top_levels(&book.bids, false) {
        Some(d) => d,
        None => {
            return Err(EngineError::ArithmeticError);
        },
    };
    Ok(DepthResponse { success: true, bids: bids_hash, asks: asks_hash })
}

} // verus!
