use tokio::sync::oneshot;
use vstd::prelude::*;

use crate::engine::types::{BalanceResponse, EngineError, OrderSide, OrderType};

verus! {

/// Credentials sent to sign up or sign in.
#[derive(Clone, Debug)]
pub struct AuthData {
    pub user_id: u64,
    pub password: String,
}

/// An order as a client submits it.
#[derive(Clone, Debug)]
pub struct IncomingOrder {
    pub user_id: String,
    pub order_type: OrderType,
    pub order_side: OrderSide,
    pub symbol: String,
    pub size: u64,
    pub price: u64,
    pub leverage: u64,
    pub slippage: u64,
}

/// A deposit into a wallet.
#[derive(Clone, Debug)]
pub struct OnRamp {
    pub user_id: String,
    pub amount: u64,
}

/// A balance query.
#[derive(Clone, Debug)]
pub struct GetBalance {
    pub user_id: String,
}

/// A cancellation request.
#[derive(Clone, Debug)]
pub struct DeleteOrderData {
    pub order_id: String,
    pub user_id: String,
    pub symbol: String,
}

/// A new mark price for a symbol.
#[derive(Clone, Debug)]
pub struct MarkPriceData {
    pub symbol: String,
    pub price: u64,
}

/// A balance check for a user on a symbol.
#[derive(Clone, Debug)]
pub struct BalanceUpdateData {
    pub user_id: String,
    pub symbol: String,
}

/// Wallet of one user.
#[derive(Clone, Debug)]
pub struct Balances {
    pub available: u64,
    pub locked: u64,
    pub user_id: String,
}

/// Reply to a successful sign in.
#[derive(Clone, Debug)]
pub struct LogInResponse {
    pub success: bool,
    pub token: String,
    pub user_id: u64,
}

/// A depth query for a symbol.
#[derive(Clone, Debug)]
pub struct GetDepth {
    pub symbol: String,
}

/// Messages the balance keeper answers.
pub enum BalanceRequest {
    AddBalance {
        user_id: String,
        amount: u64,
        response_tx: oneshot::Sender<Result<BalanceResponse, EngineError>>,
    },
    LockMargin {
        user_id: String,
        amount: u64,
        response_tx: oneshot::Sender<Result<BalanceResponse, EngineError>>,
    },
    ReleaseMargin {
        user_id: String,
        amount: u64,
        response_tx: oneshot::Sender<Result<BalanceResponse, EngineError>>,
    },
    GetBalance {
        user_id: String,
        response_tx: oneshot::Sender<Result<BalanceResponse, EngineError>>,
    },
    ReduceBalance {
        user_id: String,
        amount: u64,
        response_tx: oneshot::Sender<Result<BalanceResponse, EngineError>>,
    },
}

} // verus!
