//! Request-processing blocks for HTTP-facing services: credential
//! resolution and validation, role-based access evaluation, per-client
//! rate limiting, CORS policy, and secure static-asset serving.
//!
//! Each block is a set of pure decision functions over a request's plain
//! values (paths, header strings, record fields, timestamps).  The host
//! runtime performs the I/O — database lookups, signature verification,
//! filesystem reads — and hands the results to these functions, which
//! decide whether the pipeline continues or terminates with a response.

use vstd::prelude::*;

pub mod auth;
pub mod clock;
pub mod cors;
pub mod iam;
pub mod outcome;
pub mod rate;
pub mod readonly_guard;
pub mod strutil;
pub mod web;

verus! {

/// The HTTP status a request-terminating outcome carries.
pub open spec fn valid_status(s: u16) -> bool {
    100 <= s < 600
}

} // verus!
