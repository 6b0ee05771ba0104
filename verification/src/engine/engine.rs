use tokio::sync::mpsc::Sender;
use tokio::sync::oneshot;
use vstd::prelude::*;

use crate::engine::check_balance::KeeperCall;
use crate::engine::create_order::{create_order, engine_model, order_outcome, MarginReplies};
use crate::engine::delete_order::{cancel_outcome, delete_order_func};
use crate::engine::get_depth::{depth_reply, depth_snapshot};
use crate::engine::liquidation::{due_orders, liquidation, liquidation_run};
use crate::engine::model::{book_consistent, side_model};
use crate::engine::types::{
    BalanceResponse,
    CreateOrderResponse, DeleteOrderRes, DepthResponse, EngineError, EngineRequest, Fill, Order, OrderBook,
    Position,
};
use crate::table::Table;
use crate::types::types::BalanceRequest;

verus! {

/// Where the engine's router sends a request.
#[derive(Clone, Copy, Debug, PartialEq, Eq, Structural)]
pub enum Route {
    /// To the worker of the BTC market.
    Market,
    /// To the balance keeper, as a deposit.
    Wallet,
    /// Nowhere: no worker handles it.
    Drop,
}

/// The symbol a request is about; a deposit names none.
pub open spec fn request_symbol(req: EngineRequest) -> Option<Seq<char>> {
    match req {
        EngineRequest::CreateOrder { order, .. } => Some(order.symbol@),
        EngineRequest::MarkPriceUpdate { data } => Some(data.symbol@),
        EngineRequest::CheckBalance(data) => Some(data.symbol@),
        EngineRequest::DeleteOrderData { data, .. } => Some(data.symbol@),
        EngineRequest::GetDepth { symbol, .. } => Some(symbol@),
        EngineRequest::UpdateBalance { .. } => None,
    }
}

/// Requests about BTC go to its market worker, deposits to the balance
/// keeper, and everything else nowhere.
pub open spec fn route_of(req: EngineRequest) -> Route {
    match request_symbol(req) {
        Some(s) => if s == "BTC"@ {
            Route::Market
        } else {
            Route::Drop
        },
        None => if req is UpdateBalance {
            Route::Wallet
        } else {
            Route::Drop
        },
    }
}

/// Decides where the router sends `req`.
pub fn route(req: &EngineRequest) -> (r: Route)
    ensures
        r == route_of(*req),
{
    let btc = "BTC".to_owned();
    let symbol: Option<&String> = match req {
        EngineRequest::CreateOrder { order, .. } => Some(&order.symbol),
        EngineRequest::MarkPriceUpdate { data } => Some(&data.symbol),
        EngineRequest::CheckBalance(data) => Some(&data.symbol),
        EngineRequest::DeleteOrderData { data, .. } => Some(&data.symbol),
        EngineRequest::GetDepth { symbol, .. } => Some(symbol),
        EngineRequest::UpdateBalance { .. } => None,
    };
    match symbol {
        Some(s) => if *s == btc {
            Route::Market
        } else {
            Route::Drop
        },
        None => match req {
            EngineRequest::UpdateBalance { .. } => Route::Wallet,
            _ => Route::Drop,
        },
    }
}

/// The deposit that the balance keeper carries out for a request routed to
/// it: `AddBalance` with the request's user, amount and reply channel.
pub fn wallet_request(req: EngineRequest) -> (w: Option<BalanceRequest>)
    ensures
        match req {
            EngineRequest::UpdateBalance { user_id, amount, response_tx } => w == Some(
                BalanceRequest::AddBalance { user_id, amount, response_tx },
            ),
            _ => w is None,
        },
{
    match req {
        EngineRequest::UpdateBalance { user_id, amount, response_tx } => Some(
            BalanceRequest::AddBalance { user_id, amount, response_tx },
        ),
        _ => None,
    }
}

/// What the market worker did with a request: for a request that is
/// answered, the reply it owes and the channel the reply goes on.
pub enum Handled {
    Placed(oneshot::Sender<Result<CreateOrderResponse, EngineError>>, Result<CreateOrderResponse, EngineError>),
    Cancelled(oneshot::Sender<Result<DeleteOrderRes, EngineError>>, Result<DeleteOrderRes, EngineError>),
    Depth(oneshot::Sender<Result<DepthResponse, EngineError>>, Result<DepthResponse, EngineError>),
    Liquidated,
    Ignored,
}

/// Handles one request in the BTC market worker: an order is placed as
/// `create_order` says, a cancellation carried out as `delete_order_func`
/// says, a depth query answered from the book, and a new mark price
/// liquidates, at that price, every position due; other requests are
/// ignored. Returns what was done, with the reply owed and the request's
/// reply channel.
pub fn process_request(
    req: EngineRequest,
    orders: &mut Table<Order>,
    book: &mut OrderBook,
    positions: &mut Table<Position>,
    fills: &mut Table<Vec<Fill>>,
    balance_tx: &Sender<BalanceRequest>,
) -> (handled: Handled)
    requires
        old(orders).wf(),
        old(positions).wf(),
        old(fills).wf(),
        book_consistent(old(orders)@, side_model(old(book).asks), side_model(old(book).bids)),
    ensures
        final(orders).wf(),
        final(positions).wf(),
        final(fills).wf(),
        book_consistent(final(orders)@, side_model(final(book).asks), side_model(final(book).bids)),
        ({
            let m0 = engine_model(*old(orders), *old(book), *old(positions), *old(fills));
            let m1 = engine_model(*final(orders), *final(book), *final(positions), *final(fills));
            let unchanged = *final(orders) == *old(orders) && *final(book) == *old(book) && *final(positions)
                == *old(positions) && *final(fills) == *old(fills);
            match req {
                EngineRequest::CreateOrder { order, response_tx } => handled matches Handled::Placed(tx, r) && tx
                    == response_tx && exists|id: Seq<char>, posted: Seq<KeeperCall>, replies: MarginReplies|
                    #[trigger] order_outcome(m0, m1, old(positions)@, order, id, posted, replies, r),
                EngineRequest::DeleteOrderData { data, response_tx } => {
                    &&& handled matches Handled::Cancelled(tx, r) && tx == response_tx && exists|
                        posted: Seq<KeeperCall>,
                        reply: Option<Result<BalanceResponse, EngineError>>,
                    | #[trigger] cancel_outcome(old(orders)@, *old(book), final(orders)@, *final(book), data, posted, reply, r)
                    &&& *final(positions) == *old(positions)
                    &&& *final(fills) == *old(fills)
                },
                EngineRequest::GetDepth { response_tx, .. } => {
                    &&& unchanged
                    &&& handled matches Handled::Depth(tx, r) && tx == response_tx && depth_reply(*old(book), r)
                },
                EngineRequest::MarkPriceUpdate { data } => handled is Liquidated && liquidation_run(
                    m0,
                    old(positions)@,
                    m1,
                    final(positions)@,
                    due_orders(old(positions).items(), data.price, data.price),
                ),
                _ => unchanged && handled is Ignored,
            }
        }),
{
    match req {
        EngineRequest::CreateOrder { order, response_tx } => {
            let response = create_order(order, orders, book, positions, fills, balance_tx);
            Handled::Placed(response_tx, response)
        },
        EngineRequest::MarkPriceUpdate { data } => {
            let current_index_price = data.price;
            liquidation(current_index_price, positions, orders, fills, book, current_index_price, balance_tx);
            Handled::Liquidated
        },
        EngineRequest::DeleteOrderData { data, response_tx } => {
            let response = delete_order_func(data, orders, book, balance_tx);
            Handled::Cancelled(response_tx, response)
        },
        EngineRequest::GetDepth { response_tx, .. } => Handled::Depth(response_tx, depth_snapshot(book)),
        _ => Handled::Ignored,
    }
}

} // verus!
