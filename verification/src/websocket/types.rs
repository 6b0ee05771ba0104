use vstd::prelude::*;

verus! {

/// A mark price event of the price stream, its fields as the stream names them.
#[allow(non_snake_case)]
#[derive(Clone, Debug)]
pub struct MarkPriceUpdate {
    /// Symbol.
    pub s: String,
    /// Mark price.
    pub p: String,
    /// Funding rate.
    pub r: String,
    /// Event time.
    pub E: String,
}

} // verus!
