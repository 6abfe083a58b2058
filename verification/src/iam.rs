//! Role-based access evaluation on an already-authenticated request:
//! a live role-store lookup first, with the roles the credential
//! resolver published into the request metadata as the fallback.
//!
//! The host runtime performs the store query and hands its outcome in;
//! the decision — including the store-first precedence — is made here.

use vstd::prelude::*;

use crate::strutil::{split_char, split_spec, str_eq, trim_spec, trim_str, views_of};

verus! {

/// The access decision on one request.
#[derive(Clone, Copy, PartialEq, Eq, Structural, Debug)]
pub enum IamDecision {
    /// No authenticated identity on the request: 401, not 403.
    Unauthenticated,
    /// The required role is held: the pipeline continues.
    Allowed,
    /// Authenticated but lacking the required role: 403.
    Forbidden,
}

/// Whether a comma-separated role list names `role`, matching each
/// entry trimmed and exactly; an empty list names nothing.
pub open spec fn role_in_meta(roles_str: Seq<char>, role: Seq<char>) -> bool {
    roles_str.len() > 0 && exists|k: int|
        0 <= k < split_spec(roles_str, ',').len() && trim_spec(
            #[trigger] split_spec(roles_str, ',')[k],
        ) == role
}

/// The access decision: a missing identity is unauthenticated; a
/// store answer — even a negative one — decides alone; only a failed
/// store lookup consults the published metadata roles.
pub open spec fn iam_decision_spec(
    user_id: Seq<char>,
    store_result: Option<bool>,
    meta_roles: Seq<char>,
    role: Seq<char>,
) -> IamDecision {
    if user_id.len() == 0 {
        IamDecision::Unauthenticated
    } else {
        let has = match store_result {
            Some(b) => b,
            None => role_in_meta(meta_roles, role),
        };
        if has {
            IamDecision::Allowed
        } else {
            IamDecision::Forbidden
        }
    }
}

/// The role evaluator.
pub struct IAMBlock;

impl IAMBlock {
    pub fn new() -> Self {
        Self
    }

    /// Whether the roles the resolver published name `role`.
    pub fn has_role_meta(roles_str: &str, role: &str) -> (r: bool)
        ensures
            r <==> role_in_meta(roles_str@, role@),
    {
        if roles_str.is_empty() {
            return false;
        }
        let parts = split_char(roles_str, ',');
        let n = parts.len();
        let mut i: usize = 0;
        while i < n
            invariant
                n == parts@.len(),
                roles_str@.len() > 0,
                views_of(parts@) == split_spec(roles_str@, ','),
                forall|j: int|
                    0 <= j < i ==> trim_spec(#[trigger] split_spec(roles_str@, ',')[j]) != role@,
            decreases n - i,
        {
            let t = trim_str(parts[i].as_str());
            if str_eq(t.as_str(), role) {
                proof {
                    assert(trim_spec(split_spec(roles_str@, ',')[i as int]) == role@);
                }
                return true;
            }
            i += 1;
        }
        false
    }

    /// The required role in force: a configured one, else `admin`.
    pub fn required_role(cfg: Option<&str>) -> (r: String)
        ensures
            match cfg {
                Some(s) => r@ == s@,
                None => r@ == "admin"@,
            },
    {
        match cfg {
            Some(s) => s.to_owned(),
            None => String::from_str("admin"),
        }
    }

    /// The access decision on one request: store answer first, metadata
    /// fallback only where the store could not answer.
    pub fn handle(
        user_id: &str,
        store_result: Option<bool>,
        meta_roles: &str,
        required_role: &str,
    ) -> (r: IamDecision)
        ensures
            r == iam_decision_spec(user_id@, store_result, meta_roles@, required_role@),
    {
        if user_id.is_empty() {
            return IamDecision::Unauthenticated;
        }
        let has = match store_result {
            Some(b) => b,
            None => Self::has_role_meta(meta_roles, required_role),
        };
        if has {
            IamDecision::Allowed
        } else {
            IamDecision::Forbidden
        }
    }

    /// The 403 message, naming the required role.
    pub fn forbidden_message(role: &str) -> (r: String)
        ensures
            r@ == "Requires '"@ + role@ + "' role"@,
    {
        let mut m = String::from_str("Requires '");
        m.append(role);
        m.append("' role");
        m
    }
}

/// A store answer, even a negative one, decides alone: the metadata
/// roles are never consulted against it.
pub proof fn lemma_store_precedence(
    user_id: Seq<char>,
    answer: bool,
    meta_roles: Seq<char>,
    role: Seq<char>,
)
    requires
        user_id.len() > 0,
    ensures
        iam_decision_spec(user_id, Some(answer), meta_roles, role) == if answer {
            IamDecision::Allowed
        } else {
            IamDecision::Forbidden
        },
{
}

} // verus!
