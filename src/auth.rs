use vstd::prelude::*;

verus! {

/// How long a token stays valid, in seconds (2000 minutes).
pub const TOKEN_LIFETIME_SECS: u64 = 120000;

/// What a signed token says of its bearer.
#[derive(Clone, Debug)]
pub struct TokenClaims {
    /// The employee's identifier.
    pub sub: i32,
    pub role: String,
    /// Issued at, in seconds since the Unix epoch.
    pub iat: usize,
    /// Expires at, in seconds since the Unix epoch.
    pub exp: usize,
}

impl TokenClaims {
    /// The claims of a token issued at `now` (seconds since the Unix epoch);
    /// `None` when `now` is before the epoch or the expiry does not fit.
    pub fn issued(id: i32, role: String, now: i64) -> (r: Option<TokenClaims>)
        ensures
            r is None <==> now < 0 || now + TOKEN_LIFETIME_SECS > usize::MAX,
            r matches Some(c) ==> c.sub == id && c.role@ == role@ && c.iat == now && c.exp == now
                + TOKEN_LIFETIME_SECS,
    {
        if now < 0 {
            return None;
        }
        let iat = now as u64;
        if iat > (usize::MAX as u64) - TOKEN_LIFETIME_SECS {
            return None;
        }
        Some(TokenClaims { sub: id, role, iat: iat as usize, exp: (iat + TOKEN_LIFETIME_SECS) as usize })
    }
}

/// Why a request was refused a manager-only route.
#[derive(Clone, Copy, Debug, PartialEq, Eq, Structural)]
pub enum AuthError {
    /// The request carries no verified token.
    MissingClaims,
    /// The bearer is not a manager.
    NotManager,
}

/// The role that manager-only routes admit.
pub open spec fn manager_role() -> Seq<char> {
    "Manager"@
}

/// Access check for routes reserved to managers.
#[derive(Clone, Copy, Debug)]
pub struct IsManager;

impl IsManager {
    /// Lets through a request whose token claims the manager role.
    pub fn check(&self, claims: Option<&TokenClaims>) -> (r: Result<(), AuthError>)
        ensures
            claims is None ==> r == Err::<(), AuthError>(AuthError::MissingClaims),
            claims matches Some(c) ==> (r is Ok <==> c.role@ == manager_role()),
            claims matches Some(c) ==> (r is Err ==> r == Err::<(), AuthError>(
                AuthError::NotManager,
            )),
    {
        match claims {
            None => Err(AuthError::MissingClaims),
            Some(c) => {
                let manager = "Manager".to_owned();
                proof {
                    reveal_strlit("Manager");
                }
                if c.role == manager {
                    Ok(())
                } else {
                    Err(AuthError::NotManager)
                }
            },
        }
    }
}

} // verus!
