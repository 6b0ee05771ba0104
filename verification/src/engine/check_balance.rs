use tokio::sync::mpsc::Sender;
use tokio::sync::oneshot;
use vstd::prelude::*;

use crate::channel::post;
use crate::engine::types::{BalanceResponse, EngineError};
use crate::table::Table;
use crate::types::types::{BalanceRequest, Balances};

verus! {

/// The wallet stored for `user` after `amount` is credited to it; a user
/// without a wallet gets a fresh one holding exactly `amount`.
pub open spec fn credited(balances: Map<Seq<char>, Balances>, user: String, amount: u64) -> Balances {
    if balances.contains_key(user@) {
        let b = balances[user@];
        Balances { available: (b.available + amount) as u64, ..b }
    } else {
        Balances { available: amount, locked: 0, user_id: user }
    }
}

/// The reply that reports wallet `b` of `user`.
pub open spec fn report(user: String, b: Balances) -> BalanceResponse {
    BalanceResponse { user_id: user, balance: b.available, locked: b.locked }
}

/// Credits `amount` to the available funds of `user_id`, opening a wallet
/// holding exactly `amount` when the user has none.
pub fn handle_add_balance(user_id: String, amount: u64, balances: &mut Table<Balances>) -> (r: Result<BalanceResponse, EngineError>)
    requires
        old(balances).wf(),
        old(balances)@.contains_key(user_id@) ==> old(balances)@[user_id@].available + amount <= u64::MAX,
    ensures
        final(balances).wf(),
        final(balances)@ == old(balances)@.insert(user_id@, credited(old(balances)@, user_id, amount)),
        r == Ok::<BalanceResponse, EngineError>(report(user_id, credited(old(balances)@, user_id, amount))),
{
    let user_ids = user_id.clone();
    match balances.remove(user_id.as_str()) {
        Some(b) => {
            let updated = Balances { available: b.available + amount, locked: b.locked, user_id: b.user_id };
            let response = BalanceResponse { user_id: user_ids, balance: updated.available, locked: updated.locked };
            balances.insert(user_id, updated);
            proof {
                assert(balances@ =~= old(balances)@.insert(user_id@, credited(old(balances)@, user_id, amount)));
            }
            Ok(response)
        },
        None => {
            let fresh = Balances { available: amount, locked: 0, user_id: user_ids.clone() };
            balances.insert(user_id, fresh);
            proof {
                assert(balances@ =~= old(balances)@.insert(user_id@, credited(old(balances)@, user_id, amount)));
            }
            Ok(BalanceResponse { user_id: user_ids, balance: amount, locked: 0 })
        },
    }
}

/// Reports the wallet of `user_id`.
pub fn handle_get_balance(user_id: String, balances: &mut Table<Balances>) -> (r: Result<BalanceResponse, EngineError>)
    requires
        old(balances).wf(),
    ensures
        final(balances).wf(),
        final(balances)@ == old(balances)@,
        old(balances)@.contains_key(user_id@) ==> r == Ok::<BalanceResponse, EngineError>(report(user_id, old(balances)@[user_id@])),
        !old(balances)@.contains_key(user_id@) ==> r == Err::<BalanceResponse, EngineError>(EngineError::UserNotFound),
{
    match balances.get(user_id.as_str()) {
        Some(b) => {
            let available = b.available;
            let locked = b.locked;
            Ok(BalanceResponse { user_id, balance: available, locked })
        },
        None => Err(EngineError::UserNotFound),
    }
}

/// Moves `amount` of the available funds of `user_id` into its locked margin.
pub fn lock_margin(user_id: String, balances: &mut Table<Balances>, amount: u64) -> (r: Result<BalanceResponse, EngineError>)
    requires
        old(balances).wf(),
        old(balances)@.contains_key(user_id@) ==> {
            &&& old(balances)@[user_id@].available >= amount
            &&& old(balances)@[user_id@].locked + amount <= u64::MAX
        },
    ensures
        final(balances).wf(),
        old(balances)@.contains_key(user_id@) ==> {
            let b = old(balances)@[user_id@];
            let nb = Balances { available: (b.available - amount) as u64, locked: (b.locked + amount) as u64, ..b };
            &&& final(balances)@ == old(balances)@.insert(user_id@, nb)
            &&& r == Ok::<BalanceResponse, EngineError>(report(user_id, nb))
        },
        !old(balances)@.contains_key(user_id@) ==> {
            &&& final(balances)@ == old(balances)@
            &&& r == Err::<BalanceResponse, EngineError>(EngineError::UserNotFound)
        },
{
    match balances.remove(user_id.as_str()) {
        Some(b) => {
            let nb = Balances { available: b.available - amount, locked: b.locked + amount, user_id: b.user_id };
            let response = BalanceResponse { user_id: user_id.clone(), balance: nb.available, locked: nb.locked };
            balances.insert(user_id, nb);
            Ok(response)
        },
        None => {
            proof {
                assert(balances@ =~= old(balances)@);
            }
            Err(EngineError::UserNotFound)
        },
    }
}

/// Moves `amount` of the locked margin of `user_id` back to its available funds.
pub fn release_margin(user_id: String, balances: &mut Table<Balances>, amount: u64) -> (r: Result<BalanceResponse, EngineError>)
    requires
        old(balances).wf(),
        old(balances)@.contains_key(user_id@) ==> {
            &&& old(balances)@[user_id@].locked >= amount
            &&& old(balances)@[user_id@].available + amount <= u64::MAX
        },
    ensures
        final(balances).wf(),
        old(balances)@.contains_key(user_id@) ==> {
            let b = old(balances)@[user_id@];
            let nb = Balances { available: (b.available + amount) as u64, locked: (b.locked - amount) as u64, ..b };
            &&& final(balances)@ == old(balances)@.insert(user_id@, nb)
            &&& r == Ok::<BalanceResponse, EngineError>(report(user_id, nb))
        },
        !old(balances)@.contains_key(user_id@) ==> {
            &&& final(balances)@ == old(balances)@
            &&& r == Err::<BalanceResponse, EngineError>(EngineError::UserNotFound)
        },
{
    match balances.remove(user_id.as_str()) {
        Some(b) => {
            let nb = Balances { available: b.available + amount, locked: b.locked - amount, user_id: b.user_id };
            let response = BalanceResponse { user_id: user_id.clone(), balance: nb.available, locked: nb.locked };
            balances.insert(user_id, nb);
            Ok(response)
        },
        None => {
            proof {
                assert(balances@ =~= old(balances)@);
            }
            Err(EngineError::UserNotFound)
        },
    }
}

/// Takes `amount` out of the available funds of `user_id`.
pub fn reduce_balance(user_id: String, balances: &mut Table<Balances>, amount: u64) -> (r: Result<BalanceResponse, EngineError>)
    requires
        old(balances).wf(),
        old(balances)@.contains_key(user_id@) ==> old(balances)@[user_id@].available >= amount,
    ensures
        final(balances).wf(),
        old(balances)@.contains_key(user_id@) ==> {
            let b = old(balances)@[user_id@];
            let nb = Balances { available: (b.available - amount) as u64, ..b };
            &&& final(balances)@ == old(balances)@.insert(user_id@, nb)
            &&& r == Ok::<BalanceResponse, EngineError>(report(user_id, nb))
        },
        !old(balances)@.contains_key(user_id@) ==> {
            &&& final(balances)@ == old(balances)@
            &&& r == Err::<BalanceResponse, EngineError>(EngineError::UserNotFound)
        },
{
    match balances.remove(user_id.as_str()) {
        Some(b) => {
            let nb = Balances { available: b.available - amount, locked: b.locked, user_id: b.user_id };
            let response = BalanceResponse { user_id: user_id.clone(), balance: nb.available, locked: nb.locked };
            balances.insert(user_id, nb);
            Ok(response)
        },
        None => {
            proof {
                assert(balances@ =~= old(balances)@);
            }
            Err(EngineError::UserNotFound)
        },
    }
}

/// Wallet `b` after `amount` moved from its available funds into margin.
pub open spec fn margin_locked(b: Balances, amount: u64) -> Balances {
    Balances { available: (b.available - amount) as u64, locked: (b.locked + amount) as u64, ..b }
}

/// Wallet `b` after `amount` of margin moved back to its available funds.
pub open spec fn margin_released(b: Balances, amount: u64) -> Balances {
    Balances { available: (b.available + amount) as u64, locked: (b.locked - amount) as u64, ..b }
}

/// Wallet `b` after `amount` left its available funds.
pub open spec fn funds_reduced(b: Balances, amount: u64) -> Balances {
    Balances { available: (b.available - amount) as u64, ..b }
}

/// The request can be carried out without an amount leaving the range of `u64`.
pub open spec fn request_in_range(req: BalanceRequest, balances: Map<Seq<char>, Balances>) -> bool {
    match req {
        BalanceRequest::AddBalance { user_id, amount, .. } => balances.contains_key(user_id@)
            ==> balances[user_id@].available + amount <= u64::MAX,
        BalanceRequest::LockMargin { user_id, amount, .. } => balances.contains_key(user_id@) ==> {
            &&& balances[user_id@].available >= amount
            &&& balances[user_id@].locked + amount <= u64::MAX
        },
        BalanceRequest::ReleaseMargin { user_id, amount, .. } => balances.contains_key(user_id@) ==> {
            &&& balances[user_id@].locked >= amount
            &&& balances[user_id@].available + amount <= u64::MAX
        },
        BalanceRequest::GetBalance { .. } => true,
        BalanceRequest::ReduceBalance { user_id, amount, .. } => balances.contains_key(user_id@)
            ==> balances[user_id@].available >= amount,
    }
}

/// The wallets after the keeper has carried out `req`.
pub open spec fn wallets_after(req: BalanceRequest, balances: Map<Seq<char>, Balances>) -> Map<Seq<char>, Balances> {
    match req {
        BalanceRequest::AddBalance { user_id, amount, .. } => balances.insert(
            user_id@,
            credited(balances, user_id, amount),
        ),
        BalanceRequest::LockMargin { user_id, amount, .. } => if balances.contains_key(user_id@) {
            balances.insert(user_id@, margin_locked(balances[user_id@], amount))
        } else {
            balances
        },
        BalanceRequest::ReleaseMargin { user_id, amount, .. } => if balances.contains_key(user_id@) {
            balances.insert(user_id@, margin_released(balances[user_id@], amount))
        } else {
            balances
        },
        BalanceRequest::GetBalance { .. } => balances,
        BalanceRequest::ReduceBalance { user_id, amount, .. } => if balances.contains_key(user_id@) {
            balances.insert(user_id@, funds_reduced(balances[user_id@], amount))
        } else {
            balances
        },
    }
}

/// The reply that a wallet operation on `user` gives: the new wallet, or
/// `UserNotFound` when `user` has none.
pub open spec fn wallet_reply(
    balances: Map<Seq<char>, Balances>,
    user: String,
    updated: Balances,
) -> Result<BalanceResponse, EngineError> {
    if balances.contains_key(user@) {
        Ok(report(user, updated))
    } else {
        Err(EngineError::UserNotFound)
    }
}

/// The reply the keeper owes for `req`.
pub open spec fn balance_reply(req: BalanceRequest, balances: Map<Seq<char>, Balances>) -> Result<
    BalanceResponse,
    EngineError,
> {
    match req {
        BalanceRequest::AddBalance { user_id, amount, .. } => Ok(report(user_id, credited(balances, user_id, amount))),
        BalanceRequest::LockMargin { user_id, amount, .. } => wallet_reply(
            balances,
            user_id,
            margin_locked(balances[user_id@], amount),
        ),
        BalanceRequest::ReleaseMargin { user_id, amount, .. } => wallet_reply(
            balances,
            user_id,
            margin_released(balances[user_id@], amount),
        ),
        BalanceRequest::GetBalance { user_id, .. } => wallet_reply(balances, user_id, balances[user_id@]),
        BalanceRequest::ReduceBalance { user_id, amount, .. } => wallet_reply(
            balances,
            user_id,
            funds_reduced(balances[user_id@], amount),
        ),
    }
}

/// The channel on which the reply to `req` goes.
pub open spec fn reply_channel_of(req: BalanceRequest) -> oneshot::Sender<Result<BalanceResponse, EngineError>> {
    match req {
        BalanceRequest::AddBalance { response_tx, .. } => response_tx,
        BalanceRequest::LockMargin { response_tx, .. } => response_tx,
        BalanceRequest::ReleaseMargin { response_tx, .. } => response_tx,
        BalanceRequest::GetBalance { response_tx, .. } => response_tx,
        BalanceRequest::ReduceBalance { response_tx, .. } => response_tx,
    }
}

/// Whether `serve_balance_request` can carry out `req` on `balances`.
pub fn can_serve(req: &BalanceRequest, balances: &Table<Balances>) -> (ok: bool)
    requires
        balances.wf(),
    ensures
        ok == request_in_range(*req, balances@),
{
    match req {
        BalanceRequest::AddBalance { user_id, amount, .. } => match balances.get(user_id.as_str()) {
            Some(b) => b.available <= u64::MAX - *amount,
            None => true,
        },
        BalanceRequest::LockMargin { user_id, amount, .. } => match balances.get(user_id.as_str()) {
            Some(b) => b.available >= *amount && b.locked <= u64::MAX - *amount,
            None => true,
        },
        BalanceRequest::ReleaseMargin { user_id, amount, .. } => match balances.get(user_id.as_str()) {
            Some(b) => b.locked >= *amount && b.available <= u64::MAX - *amount,
            None => true,
        },
        BalanceRequest::GetBalance { .. } => true,
        BalanceRequest::ReduceBalance { user_id, amount, .. } => match balances.get(user_id.as_str()) {
            Some(b) => b.available >= *amount,
            None => true,
        },
    }
}

/// Carries out one request of the balance keeper on `balances` and returns
/// the reply it owes, with the channel the reply goes on.
pub fn serve_balance_request(req: BalanceRequest, balances: &mut Table<Balances>) -> (out: (
    oneshot::Sender<Result<BalanceResponse, EngineError>>,
    Result<BalanceResponse, EngineError>,
))
    requires
        old(balances).wf(),
        request_in_range(req, old(balances)@),
    ensures
        final(balances).wf(),
        final(balances)@ == wallets_after(req, old(balances)@),
        out.0 == reply_channel_of(req),
        out.1 == balance_reply(req, old(balances)@),
{
    match req {
        BalanceRequest::AddBalance { user_id, amount, response_tx } => (
            response_tx,
            handle_add_balance(user_id, amount, balances),
        ),
        BalanceRequest::GetBalance { user_id, response_tx } => (response_tx, handle_get_balance(user_id, balances)),
        BalanceRequest::LockMargin { user_id, amount, response_tx } => (
            response_tx,
            lock_margin(user_id, balances, amount),
        ),
        BalanceRequest::ReleaseMargin { user_id, amount, response_tx } => (
            response_tx,
            release_margin(user_id, balances, amount),
        ),
        BalanceRequest::ReduceBalance { user_id, amount, response_tx } => (
            response_tx,
            reduce_balance(user_id, balances, amount),
        ),
    }
}

/// A request to the balance keeper, without its reply channel.
pub enum KeeperCall {
    Add(Seq<char>, u64),
    Lock(Seq<char>, u64),
    Release(Seq<char>, u64),
    Get(Seq<char>),
    Reduce(Seq<char>, u64),
}

/// What `req` asks of the balance keeper.
pub open spec fn call_of(req: BalanceRequest) -> KeeperCall {
    match req {
        BalanceRequest::AddBalance { user_id, amount, .. } => KeeperCall::Add(user_id@, amount),
        BalanceRequest::LockMargin { user_id, amount, .. } => KeeperCall::Lock(user_id@, amount),
        BalanceRequest::ReleaseMargin { user_id, amount, .. } => KeeperCall::Release(user_id@, amount),
        BalanceRequest::GetBalance { user_id, .. } => KeeperCall::Get(user_id@),
        BalanceRequest::ReduceBalance { user_id, amount, .. } => KeeperCall::Reduce(user_id@, amount),
    }
}

/// Hands `req` to the balance keeper's queue; returns what was asked of it.
pub fn send_to_keeper(balance_tx: &Sender<BalanceRequest>, req: BalanceRequest) -> (sent: Ghost<KeeperCall>)
    ensures
        sent@ == call_of(req),
{
    let ghost asked = call_of(req);
    let _delivered = post(balance_tx, req);
    Ghost(asked)
}

} // verus!
