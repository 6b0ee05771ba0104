use std::collections::{BTreeMap, HashMap, VecDeque};
use tokio::sync::oneshot::Sender;
use vstd::prelude::*;

use crate::types::types::{BalanceUpdateData, DeleteOrderData, IncomingOrder, MarkPriceData};

verus! {

/// How an order is executed: at a limit, or against whatever liquidity rests.
#[derive(Clone, Copy, Debug, PartialEq, Eq, Structural)]
pub enum OrderType {
    Market,
    Limit,
}

/// Direction of an order.
#[derive(Clone, Copy, Debug, PartialEq, Eq, Structural)]
pub enum OrderSide {
    Buy,
    Sell,
}

/// Lifecycle state of an order.
#[derive(Clone, Copy, Debug, PartialEq, Eq, Structural)]
pub enum OrderStatus {
    Filled,
    PartiallyFilled,
    Cancelled,
    Open,
}

/// An order as the engine records it.
#[derive(Clone, Debug)]
pub struct Order {
    pub user_id: String,
    pub order_id: String,
    pub order_type: OrderType,
    pub order_side: OrderSide,
    pub symbol: String,
    pub size: u64,
    pub price: u64,
    pub leverage: u64,
    pub status: OrderStatus,
    pub slippage: u64,
    pub filled_qty: u64,
    pub remaining_qty: u64,
    pub created_at: String,
}

/// The open position of one user.
#[derive(Clone, Debug)]
pub struct Position {
    pub order_id: String,
    /// Average of all entry prices.
    pub average_entry_price: u64,
    pub symbol: String,
    pub margin: u64,
    /// Signed exposure: positive is long, negative is short.
    pub size: i64,
    pub liquidation_price: u64,
    pub realized_pnl: Option<u64>,
    pub time: String,
    pub leverage: u64,
}

/// One side of one execution, as recorded for an order.
#[derive(Clone, Debug)]
pub struct Fill {
    pub order_id: String,
    pub maker_id: String,
    pub taker_id: String,
    pub price: u64,
    pub qty: u64,
    pub symbol: String,
    pub consumed: bool,
    pub time: String,
}

/// An order waiting in the book.
#[derive(Clone, Debug)]
pub struct RestingOrder {
    pub order_id: String,
    pub user_id: String,
    pub qty: u64,
    pub price: u64,
    pub remaining_qty: u64,
    pub symbol: String,
}

/// Bids and asks, each a queue of resting orders per price level.
#[derive(Debug)]
pub struct OrderBook {
    pub asks: BTreeMap<u64, VecDeque<RestingOrder>>,
    pub bids: BTreeMap<u64, VecDeque<RestingOrder>>,
}

/// Messages the engine worker answers.
pub enum EngineRequest {
    CreateOrder {
        order: IncomingOrder,
        response_tx: Sender<Result<CreateOrderResponse, EngineError>>,
    },
    MarkPriceUpdate {
        data: MarkPriceData,
    },
    CheckBalance(BalanceUpdateData),
    DeleteOrderData {
        data: DeleteOrderData,
        response_tx: Sender<Result<DeleteOrderRes, EngineError>>,
    },
    GetDepth {
        symbol: String,
        response_tx: Sender<Result<DepthResponse, EngineError>>,
    },
    UpdateBalance {
        user_id: String,
        amount: u64,
        response_tx: Sender<Result<BalanceResponse, EngineError>>,
    },
}

/// Answer to a cancellation.
#[derive(Clone, Debug)]
pub struct DeleteOrderRes {
    pub success: bool,
    pub order_status: OrderStatus,
    pub data: String,
    pub order_id: String,
}

/// Answer to an order placement.
#[derive(Clone, Debug)]
pub struct CreateOrderResponse {
    pub success: bool,
    pub filled_qty: u64,
    pub remaining_qty: u64,
    pub order_status: OrderStatus,
}

/// Answer of the balance keeper.
#[derive(Clone, Debug)]
pub struct BalanceResponse {
    pub user_id: String,
    pub balance: u64,
    pub locked: u64,
}

/// Aggregated remaining quantity per price level.
#[derive(Clone, Debug)]
pub struct DepthResponse {
    pub success: bool,
    pub bids: HashMap<u64, u64>,
    pub asks: HashMap<u64, u64>,
}

/// Why the engine refused a request.
#[derive(Clone, Copy, Debug, PartialEq, Eq, Structural)]
pub enum EngineError {
    InvalidPrice,
    InsufficientBalance,
    OrderNotFound,
    OrderFilledAlready,
    OrderBookNotFound,
    NotEnoughBalance,
    UserNotFound,
    BalanceThreadDead,
    /// An amount would leave the range of its integer type, or a divisor is zero.
    ArithmeticError,
}

} // verus!
