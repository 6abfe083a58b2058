//! CORS policy: which origin to reflect, and whether credentials may
//! accompany it.  A wildcard allowlist reflects any origin but never
//! allows credentials; only an origin named explicitly in the allowlist
//! gets them.

use vstd::prelude::*;

use crate::strutil::{pair_views, split_char, split_spec, str_eq, trim_spec, trim_str, views_of};

verus! {

/// Whether a comma-separated allowlist names `origin`, matching each
/// entry trimmed and exactly.
pub open spec fn origin_allowed(origins: Seq<char>, origin: Seq<char>) -> bool {
    exists|k: int|
        0 <= k < split_spec(origins, ',').len() && trim_spec(
            #[trigger] split_spec(origins, ',')[k],
        ) == origin
}

/// What the CORS block decides for one request.
pub struct CorsDecision {
    /// The `Access-Control-Allow-Origin` value to set, if any.
    pub allow_origin: Option<String>,
    /// Whether `Access-Control-Allow-Credentials: true` may be set.
    pub credentials: bool,
}

/// The CORS policy block, with its default policy strings.
pub struct CorsBlock {
    pub allowed_origins: String,
    pub allowed_methods: String,
    pub allowed_headers: String,
    pub max_age: String,
}

impl CorsBlock {
    /// The stock policy: any origin, the common methods and headers, a
    /// day of preflight caching.
    pub fn new() -> (r: Self)
        ensures
            r.allowed_origins@ == "*"@,
            r.allowed_methods@ == "GET, POST, PUT, PATCH, DELETE, OPTIONS"@,
            r.allowed_headers@ == "Content-Type, Authorization, X-Requested-With"@,
            r.max_age@ == "86400"@,
    {
        CorsBlock {
            allowed_origins: String::from_str("*"),
            allowed_methods: String::from_str("GET, POST, PUT, PATCH, DELETE, OPTIONS"),
            allowed_headers: String::from_str("Content-Type, Authorization, X-Requested-With"),
            max_age: String::from_str("86400"),
        }
    }

    /// The origin decision: no request origin echoes the allowlist
    /// itself; a wildcard allowlist reflects the origin without
    /// credentials; an allowlisted origin is reflected with
    /// credentials; any other origin gets no header at all.
    pub fn decide(origin: &str, origins: &str) -> (r: CorsDecision)
        ensures
            origin@.len() == 0 ==> (r.allow_origin matches Some(o) && o@ == origins@)
                && !r.credentials,
            origin@.len() > 0 && origins@ == "*"@ ==> (r.allow_origin matches Some(o) && o@
                == origin@) && !r.credentials,
            origin@.len() > 0 && origins@ != "*"@ && origin_allowed(origins@, origin@) ==> (
            r.allow_origin matches Some(o) && o@ == origin@) && r.credentials,
            origin@.len() > 0 && origins@ != "*"@ && !origin_allowed(origins@, origin@)
                ==> r.allow_origin is None && !r.credentials,
            origins@ == "*"@ ==> !r.credentials,
    {
        if origin.is_empty() {
            return CorsDecision { allow_origin: Some(origins.to_owned()), credentials: false };
        }
        if str_eq(origins, "*") {
            return CorsDecision { allow_origin: Some(origin.to_owned()), credentials: false };
        }
        let parts = split_char(origins, ',');
        let n = parts.len();
        let mut i: usize = 0;
        while i < n
            invariant
                n == parts@.len(),
                origin@.len() > 0,
                origins@ != "*"@,
                views_of(parts@) == split_spec(origins@, ','),
                forall|j: int|
                    0 <= j < i ==> trim_spec(#[trigger] split_spec(origins@, ',')[j]) != origin@,
            decreases n - i,
        {
            let t = trim_str(parts[i].as_str());
            if str_eq(t.as_str(), origin) {
                proof {
                    assert(trim_spec(split_spec(origins@, ',')[i as int]) == origin@);
                }
                return CorsDecision {
                    allow_origin: Some(origin.to_owned()),
                    credentials: true,
                };
            }
            i += 1;
        }
        CorsDecision { allow_origin: None, credentials: false }
    }
}

/// The header entries a CORS decision attaches.
pub open spec fn cors_headers_spec(
    allow_origin: Option<Seq<char>>,
    credentials: bool,
    methods: Seq<char>,
    headers: Seq<char>,
    max_age: Seq<char>,
) -> Seq<(Seq<char>, Seq<char>)> {
    let base = match allow_origin {
        Some(o) => seq![("Access-Control-Allow-Origin"@, o)],
        None => Seq::<(Seq<char>, Seq<char>)>::empty(),
    };
    let common = base + seq![
        ("Access-Control-Allow-Methods"@, methods),
        ("Access-Control-Allow-Headers"@, headers),
    ];
    let with_cred = if credentials {
        common.push(("Access-Control-Allow-Credentials"@, "true"@))
    } else {
        common
    };
    with_cred.push(("Access-Control-Max-Age"@, max_age))
}

/// The headers a decision attaches, with the policy strings in force.
pub fn cors_headers(d: &CorsDecision, methods: &str, headers: &str, max_age: &str) -> (r: Vec<
    (String, String),
>)
    ensures
        pair_views(r@) == cors_headers_spec(
            match d.allow_origin {
                Some(o) => Some(o@),
                None => None,
            },
            d.credentials,
            methods@,
            headers@,
            max_age@,
        ),
{
    let mut r: Vec<(String, String)> = Vec::new();
    match &d.allow_origin {
        Some(o) => {
            r.push((String::from_str("Access-Control-Allow-Origin"), o.clone()));
        },
        None => {},
    }
    r.push((String::from_str("Access-Control-Allow-Methods"), methods.to_owned()));
    r.push((String::from_str("Access-Control-Allow-Headers"), headers.to_owned()));
    if d.credentials {
        r.push((
            String::from_str("Access-Control-Allow-Credentials"),
            String::from_str("true"),
        ));
    }
    r.push((String::from_str("Access-Control-Max-Age"), max_age.to_owned()));
    proof {
        assert(pair_views(r@) =~~= cors_headers_spec(
            match d.allow_origin {
                Some(o) => Some(o@),
                None => None,
            },
            d.credentials,
            methods@,
            headers@,
            max_age@,
        ));
    }
    r
}

} // verus!
