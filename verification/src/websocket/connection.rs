use vstd::prelude::*;

use crate::engine::types::EngineRequest;
use crate::types::types::MarkPriceData;

verus! {

/// The engine request for an index price read from the price stream, which
/// quotes BTC.
pub fn mark_price_request(price: u64) -> (req: EngineRequest)
    ensures
        req matches EngineRequest::MarkPriceUpdate { data } && data.price == price && data.symbol@ == "BTC"@,
{
    EngineRequest::MarkPriceUpdate { data: MarkPriceData { price, symbol: "BTC".to_owned() } }
}

} // verus!
