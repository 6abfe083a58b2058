//! Error taxonomy shared by the blocks: every terminal outcome carries a
//! status code and a machine-readable kind.

use vstd::prelude::*;

verus! {

/// The failure classes a block can terminate a request with.
#[derive(Clone, Copy, PartialEq, Eq, Structural, Debug)]
pub enum ErrorKind {
    /// 401: missing, invalid or expired credential.
    Unauthenticated,
    /// 403: authenticated but lacking a required permission.
    Forbidden,
    /// 429: admission quota exceeded.
    RateLimited,
    /// 404: unresolved or disallowed filesystem path.
    NotFound,
    /// 405: HTTP method not served by the block.
    MethodNotAllowed,
    /// 500: a required collaborator service is absent or unreachable.
    InfrastructureUnavailable,
}

impl ErrorKind {
    /// The HTTP status code of this failure class.
    pub fn status(&self) -> (s: u16)
        ensures
            s == self.status_spec(),
    {
        match self {
            ErrorKind::Unauthenticated => 401,
            ErrorKind::Forbidden => 403,
            ErrorKind::RateLimited => 429,
            ErrorKind::NotFound => 404,
            ErrorKind::MethodNotAllowed => 405,
            ErrorKind::InfrastructureUnavailable => 500,
        }
    }

    pub open spec fn status_spec(&self) -> u16 {
        match self {
            ErrorKind::Unauthenticated => 401,
            ErrorKind::Forbidden => 403,
            ErrorKind::RateLimited => 429,
            ErrorKind::NotFound => 404,
            ErrorKind::MethodNotAllowed => 405,
            ErrorKind::InfrastructureUnavailable => 500,
        }
    }
}

/// Every status the taxonomy produces is a valid HTTP status code.
pub proof fn lemma_error_status_valid(k: ErrorKind)
    ensures
        crate::valid_status(k.status_spec()),
{
}

} // verus!
