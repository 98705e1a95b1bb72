//! The error taxonomy: bad input, plain absence, and server faults are kept
//! apart and never coerced into one another.
use crate::steam_id::SteamIdError;
use vstd::prelude::*;

verus! {

#[derive(Clone, Copy, PartialEq, Eq, Debug, Structural)]
pub enum DropsError {
    /// The given text is no identity notation, or a number in it is out of
    /// range: user-correctable bad input.
    SteamId(SteamIdError),
    /// The relational store failed: a server fault.
    Database,
    /// The external vanity resolver failed: a server fault.
    Steam,
    /// The requested page does not exist.
    NotFound,
    /// The player is unknown or has no drops: absence, not a fault.
    UserNotFound,
}

impl DropsError {
    /// A short message for each kind.
    pub fn message(&self) -> (r: &'static str)
        ensures
            r@ == self.spec_message(),
    {
        proof {
            reveal_strlit("invalid steam id");
            reveal_strlit("database error");
            reveal_strlit("error while resolving steam url");
            reveal_strlit("404 - page not found");
            reveal_strlit("user not found or no drops");
        }
        match self {
            DropsError::SteamId(_) => "invalid steam id",
            DropsError::Database => "database error",
            DropsError::Steam => "error while resolving steam url",
            DropsError::NotFound => "404 - page not found",
            DropsError::UserNotFound => "user not found or no drops",
        }
    }

    pub open spec fn spec_message(&self) -> Seq<char> {
        match self {
            DropsError::SteamId(_) => "invalid steam id"@,
            DropsError::Database => "database error"@,
            DropsError::Steam => "error while resolving steam url"@,
            DropsError::NotFound => "404 - page not found"@,
            DropsError::UserNotFound => "user not found or no drops"@,
        }
    }
}

} // verus!
