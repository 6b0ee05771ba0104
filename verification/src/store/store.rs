use vstd::prelude::*;

verus! {

/// Kinds of request the exchange takes.
#[derive(Clone, Copy, Debug, PartialEq, Eq, Structural)]
pub enum RequestType {
    CreateOrder,
    UpateMarkPrice,
    CheckBalance,
}

/// Kinds of payload a request carries.
#[derive(Clone, Copy, Debug, PartialEq, Eq, Structural)]
pub enum DataTypes {
    IncomingOrder,
    GetBalance,
}

} // verus!
