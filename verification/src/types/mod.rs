pub mod types;

pub use self::types::{
    AuthData, BalanceRequest, BalanceUpdateData, Balances, DeleteOrderData, GetBalance, GetDepth,
    IncomingOrder, LogInResponse, MarkPriceData, OnRamp,
};
