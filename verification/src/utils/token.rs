use std::collections::{BTreeMap, HashSet};

use jsonwebtoken::{decode, encode, Algorithm, DecodingKey, EncodingKey, Header, Validation};
use vstd::prelude::*;

use crate::utils::user::AuthError;

verus! {

/// Claims carried by a session token.
#[derive(Clone, Copy, Debug)]
pub struct Data {
    pub user_id: u64,
    /// Expiry, in seconds since the Unix epoch.
    pub sub: usize,
}

/// The claims of a token issued to `user_id` at `now` (seconds since the
/// Unix epoch): it expires one hour later.
pub fn token_claims(user_id: u64, now: u64) -> (data: Data)
    requires
        now + 3600 <= usize::MAX,
    ensures
        data.user_id == user_id,
        data.sub == now + 3600,
{
    Data { user_id, sub: (now + 3600) as usize }
}

/// The compact HS256 token that jsonwebtoken signs with `secret` for the
/// claims `user_id` and `sub`.
pub uninterp spec fn jwt_hs256(user_id: u64, sub: usize, secret: Seq<u8>) -> Seq<char>;

/// The numeric claims `user_id` and `sub` that jsonwebtoken reads from
/// `token` when its HS256 signature checks out against `secret`; `None` when
/// it does not, or when the token is malformed.
pub uninterp spec fn jwt_hs256_claims(token: Seq<char>, secret: Seq<u8>) -> Option<(Option<u64>, Option<u64>)>;

/// Calls `jsonwebtoken::encode` with the default (HS256) header on the claims
/// `user_id` and `sub`, keyed by `secret`. The token is a function of these
/// alone, so it is named by `jwt_hs256`. Encoding numeric claims with an
/// HMAC key does not fail, and `jsonwebtoken::decode` with the same key gives
/// the two claims back: the signature it checks is the one `encode` wrote.
#[verifier::external_body]
fn sign_hs256(user_id: u64, sub: usize, secret: &[u8]) -> (token: String)
    ensures
        token@ == jwt_hs256(user_id, sub, secret@),
        jwt_hs256_claims(token@, secret@) == Some((Some(user_id), Some(sub as u64))),
{
    let mut claims: BTreeMap<&str, u64> = BTreeMap::new();
    claims.insert("user_id", user_id);
    claims.insert("sub", sub as u64);
    encode(&Header::default(), &claims, &EncodingKey::from_secret(secret)).unwrap()
}

/// Calls `jsonwebtoken::decode` for an HS256 token keyed by `secret`, with no
/// claim required and no check against the clock, and reads its numeric
/// claims `user_id` and `sub`. The result is a function of the token and the
/// secret alone, named by `jwt_hs256_claims`; a decoding error becomes `None`.
#[verifier::external_body]
fn decode_hs256(token: &str, secret: &[u8]) -> (claims: Option<(Option<u64>, Option<u64>)>)
    ensures
        claims == jwt_hs256_claims(token@, secret@),
{
    let mut validation = Validation::new(Algorithm::HS256);
    validation.required_spec_claims = HashSet::new();
    validation.validate_exp = false;
    match decode::<BTreeMap<String, u64>>(token, &DecodingKey::from_secret(secret), &validation) {
        Ok(data) => Some((data.claims.get("user_id").copied(), data.claims.get("sub").copied())),
        Err(_) => None,
    }
}

/// A session token for `user_id` issued at `now` (seconds since the Unix
/// epoch), signed with `secret`: it carries the user and an expiry one hour
/// later.
pub fn create_token(user_id: u64, now: u64, secret: &[u8]) -> (token: String)
    requires
        now + 3600 <= usize::MAX,
    ensures
        token@ == jwt_hs256(user_id, (now + 3600) as usize, secret@),
        forall|t: u64| t < now + 3600 ==> #[trigger] token_verdict(jwt_hs256_claims(token@, secret@), t) == Ok::<u64, AuthError>(user_id),
        forall|t: u64| t >= now + 3600 ==> #[trigger] token_verdict(jwt_hs256_claims(token@, secret@), t) == Err::<u64, AuthError>(AuthError::TokenExpired),
{
    let data = token_claims(user_id, now);
    sign_hs256(data.user_id, data.sub, secret)
}

/// What the claims read from a token mean at `now`: its user while it has
/// not expired, `TokenExpired` once its expiry has passed, and
/// `InvalidToken` when it did not decode or lacks a claim.
pub open spec fn token_verdict(claims: Option<(Option<u64>, Option<u64>)>, now: u64) -> Result<u64, AuthError> {
    match claims {
        Some((Some(user_id), Some(sub))) => if now < sub {
            Ok(user_id)
        } else {
            Err(AuthError::TokenExpired)
        },
        _ => Err(AuthError::InvalidToken),
    }
}

/// Decides what the claims read from a token mean at `now`; see
/// `token_verdict`.
pub fn token_user(claims: Option<(Option<u64>, Option<u64>)>, now: u64) -> (r: Result<u64, AuthError>)
    ensures
        r == token_verdict(claims, now),
{
    match claims {
        Some((Some(user_id), Some(sub))) => if now < sub {
            Ok(user_id)
        } else {
            Err(AuthError::TokenExpired)
        },
        _ => Err(AuthError::InvalidToken),
    }
}

/// The user a token signed with `secret` was issued to, checked at `now`.
pub fn decode_token(token: &str, secret: &[u8], now: u64) -> (r: Result<u64, AuthError>)
    ensures
        r == token_verdict(jwt_hs256_claims(token@, secret@), now),
{
    token_user(decode_hs256(token, secret), now)
}

/// Whether a token signed with `secret` is valid at `now`.
pub fn verify_token(token: &str, secret: &[u8], now: u64) -> (valid: bool)
    ensures
        valid == token_verdict(jwt_hs256_claims(token@, secret@), now) is Ok,
{
    decode_token(token, secret, now).is_ok()
}

} // verus!
