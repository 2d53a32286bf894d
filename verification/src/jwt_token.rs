use vstd::prelude::*;

use crate::user_info::UserInfo;
use crate::utility::current_timestamp;

verus! {

// ---------------------------------------------------------------------------
// Bearer-token claims. Encoding and decoding the token itself is the identity
// layer's affair; the core only builds a claim set for a user and judges a
// decoded claim set against the clock.
// ---------------------------------------------------------------------------

/// How long a token stays valid, in seconds (twenty minutes).
pub const TOKEN_LIFETIME_SECS: u64 = 1200;

/// The claims carried by a bearer token.
pub struct Claims {
    /// When the token was issued, in seconds since the Unix epoch.
    pub iat: u64,
    /// When the token expires, in seconds since the Unix epoch.
    pub exp: u64,
    /// The authenticated user.
    pub id: u128,
    pub user_name: String,
}

/// Why a token was rejected.
#[derive(Clone, Copy, Debug, PartialEq, Eq, Structural)]
pub enum JwtError {
    /// The claims are malformed or issued in the future.
    InvalidToken,
    /// The token's lifetime is over.
    ExpiredToken,
}

/// Builds the claims issued to a user at a given moment: issued now, expiring
/// one lifetime later.
pub fn make_claims_at(user_info: &UserInfo, now: u64) -> (r: Claims)
    requires
        now + TOKEN_LIFETIME_SECS <= u64::MAX,
    ensures
        r.iat == now,
        r.exp == now + TOKEN_LIFETIME_SECS,
        r.id == user_info.user_id,
        r.user_name@ == user_info.user_name@,
{
    Claims {
        iat: now,
        exp: now + TOKEN_LIFETIME_SECS,
        id: user_info.user_id,
        user_name: user_info.user_name.clone(),
    }
}

/// Builds the claims issued to a user at the present moment. Whatever second
/// the clock hands back, the expiry stands one lifetime after the issue time.
pub fn generate_claims(user_info: &UserInfo) -> (r: Claims)
    ensures
        r.exp == r.iat + TOKEN_LIFETIME_SECS,
        r.id == user_info.user_id,
        r.user_name@ == user_info.user_name@,
{
    let t = current_timestamp();
    let now: u64 = if t < 0 {
        0
    } else {
        t as u64
    };
    make_claims_at(user_info, now)
}

/// Judges a decoded claim set against the clock: claims issued in the future
/// are invalid, claims past their expiry are expired, and anything else
/// passes unchanged.
pub fn validate_claims(claims: Claims, now: u64) -> (r: Result<Claims, JwtError>)
    ensures
        claims.iat > now ==> r == Err::<Claims, JwtError>(JwtError::InvalidToken),
        claims.iat <= now && claims.exp <= now ==> r == Err::<Claims, JwtError>(
            JwtError::ExpiredToken,
        ),
        claims.iat <= now && claims.exp > now ==> r == Ok::<Claims, JwtError>(claims),
{
    if claims.iat > now {
        return Err(JwtError::InvalidToken);
    }
    if claims.exp <= now {
        return Err(JwtError::ExpiredToken);
    }
    Ok(claims)
}

/// Reissuing a token is not offered; the placeholder hands back an empty
/// token.
pub fn _regenerate_token(_token: String) -> (r: String)
    ensures
        r@ == Seq::<char>::empty(),
{
    String::new()
}

} // verus!
