//! Per-client fixed-window rate limiting: a bucket per client address,
//! reset on window expiry, incremented on every request, rejecting with
//! 429 once the count exceeds the configured maximum.
//!
//! The block owns the bucket map; the host runtime serialises calls to
//! `handle` per map (one critical section around each call) and supplies
//! the clock reading.

use vstd::prelude::*;

use crate::strutil::{dec_str, pair_views, str_eq, u64_to_string};

verus! {

/// One client's request count inside its current window.
#[derive(Clone, Copy)]
pub struct RateBucket {
    pub count: u32,
    /// The monotonic second the current window began at.
    pub window_start: u64,
}

/// The admission decision on one request.
pub enum RateDecision {
    /// No resolvable client address: limiting is bypassed.
    Bypass,
    /// Admitted; the quota headers to attach.
    Allowed { limit: u32, remaining: u32 },
    /// Rejected with 429; the retry guidance to attach.
    Limited { limit: u32, retry_after: u64 },
}

/// Seconds elapsed from `start` to `now`, floored at zero.
pub open spec fn elapsed_of(now: u64, start: u64) -> int {
    if now >= start {
        now - start
    } else {
        0
    }
}

/// The bucket a request finds: a fresh one for a new client or an
/// expired window, the stored one otherwise.
pub open spec fn base_bucket(b: Option<RateBucket>, now: u64, window: u64) -> RateBucket {
    match b {
        None => RateBucket { count: 0, window_start: now },
        Some(x) => if elapsed_of(now, x.window_start) > window {
            RateBucket { count: 0, window_start: now }
        } else {
            x
        },
    }
}

/// The count after one more request, saturating at the type bound.
pub open spec fn next_count(c: u32) -> u32 {
    if c < u32::MAX {
        (c + 1) as u32
    } else {
        c
    }
}

/// The stored bucket after one request at `now`.
pub open spec fn stepped_bucket(b: Option<RateBucket>, now: u64, window: u64) -> RateBucket {
    let base = base_bucket(b, now, window);
    RateBucket { count: next_count(base.count), window_start: base.window_start }
}

/// The seconds left of a window after `elapsed`, floored at zero.
pub open spec fn remaining_window(window: u64, elapsed: int) -> u64 {
    if elapsed <= window {
        (window - elapsed) as u64
    } else {
        0
    }
}

/// The decision on one request at `now`: rejected exactly when the
/// post-increment count exceeds `max`.
pub open spec fn step_decision(b: Option<RateBucket>, now: u64, max: u32, window: u64)
    -> RateDecision {
    let nb = stepped_bucket(b, now, window);
    if nb.count > max {
        RateDecision::Limited {
            limit: max,
            retry_after: remaining_window(window, elapsed_of(now, nb.window_start)),
        }
    } else {
        RateDecision::Allowed { limit: max, remaining: (max - nb.count) as u32 }
    }
}

/// One request against one bucket: the bucket to store back and the
/// admission decision.
pub fn rate_step(b: Option<RateBucket>, now: u64, max: u32, window: u64) -> (r: (
    RateBucket,
    RateDecision,
))
    ensures
        r.0 == stepped_bucket(b, now, window),
        r.1 == step_decision(b, now, max, window),
{
    let base = match b {
        None => RateBucket { count: 0, window_start: now },
        Some(x) => {
            let elapsed = if now >= x.window_start {
                now - x.window_start
            } else {
                0
            };
            if elapsed > window {
                RateBucket { count: 0, window_start: now }
            } else {
                x
            }
        },
    };
    let count = if base.count < u32::MAX {
        base.count + 1
    } else {
        base.count
    };
    let nb = RateBucket { count, window_start: base.window_start };
    if count > max {
        let elapsed = if now >= nb.window_start {
            now - nb.window_start
        } else {
            0
        };
        let retry_after = if elapsed <= window {
            window - elapsed
        } else {
            0
        };
        (nb, RateDecision::Limited { limit: max, retry_after })
    } else {
        (nb, RateDecision::Allowed { limit: max, remaining: max - count })
    }
}

/// The bucket stored under `key`, if any.
pub open spec fn assoc_lookup(s: Seq<(String, RateBucket)>, key: Seq<char>) -> Option<RateBucket>
    decreases s.len(),
{
    if s.len() == 0 {
        None
    } else if s[0].0@ == key {
        Some(s[0].1)
    } else {
        assoc_lookup(s.drop_first(), key)
    }
}

proof fn lemma_assoc_skip(s: Seq<(String, RateBucket)>, key: Seq<char>, i: int)
    requires
        0 <= i <= s.len(),
        forall|j: int| 0 <= j < i ==> (#[trigger] s[j]).0@ != key,
    ensures
        assoc_lookup(s, key) == assoc_lookup(s.skip(i), key),
    decreases i,
{
    if i > 0 {
        assert(s[0].0@ != key);
        lemma_assoc_skip(s.drop_first(), key, i - 1);
        assert(s.drop_first().skip(i - 1) =~= s.skip(i));
    } else {
        assert(s.skip(0) =~= s);
    }
}

proof fn lemma_assoc_update(s: Seq<(String, RateBucket)>, i: int, e: (String, RateBucket), key: Seq<char>)
    requires
        0 <= i < s.len(),
        s[i].0@ == key,
        e.0@ == key,
        forall|j: int| 0 <= j < i ==> (#[trigger] s[j]).0@ != key,
    ensures
        assoc_lookup(s.update(i, e), key) == Some(e.1),
        forall|k: Seq<char>| k != key ==> assoc_lookup(s.update(i, e), k) == assoc_lookup(s, k),
    decreases i,
{
    if i == 0 {
        let u = s.update(0, e);
        assert(u[0] == e);
        assert(assoc_lookup(u, key) == Some(e.1));
        assert forall|k: Seq<char>| k != key implies assoc_lookup(s.update(0, e), k)
            == assoc_lookup(s, k) by {
            assert(s.update(0, e).drop_first() =~= s.drop_first());
        }
    } else {
        lemma_assoc_update(s.drop_first(), i - 1, e, key);
        assert(s.update(i, e)[0] == s[0]);
        assert(s.update(i, e).drop_first() =~= s.drop_first().update(i - 1, e));
        assert(s[0].0@ != key);
        assert forall|k: Seq<char>| k != key implies assoc_lookup(s.update(i, e), k)
            == assoc_lookup(s, k) by {
            if s[0].0@ == k {
                assert(assoc_lookup(s.update(i, e), k) == Some(s[0].1));
                assert(assoc_lookup(s, k) == Some(s[0].1));
            } else {
                assert(assoc_lookup(s.update(i, e), k) == assoc_lookup(
                    s.drop_first().update(i - 1, e),
                    k,
                ));
                assert(assoc_lookup(s.drop_first().update(i - 1, e), k) == assoc_lookup(
                    s.drop_first(),
                    k,
                ));
                assert(assoc_lookup(s, k) == assoc_lookup(s.drop_first(), k));
            }
        }
    }
}

proof fn lemma_assoc_push(s: Seq<(String, RateBucket)>, e: (String, RateBucket))
    ensures
        (forall|j: int| 0 <= j < s.len() ==> (#[trigger] s[j]).0@ != e.0@) ==> assoc_lookup(
            s.push(e),
            e.0@,
        ) == Some(e.1),
        forall|k: Seq<char>|
            k != e.0@ ==> #[trigger] assoc_lookup(s.push(e), k) == assoc_lookup(s, k),
    decreases s.len(),
{
    if s.len() == 0 {
        assert(s.push(e)[0] == e);
        assert(s.push(e).drop_first() =~= Seq::<(String, RateBucket)>::empty());
        assert forall|k: Seq<char>| k != e.0@ implies #[trigger] assoc_lookup(s.push(e), k)
            == assoc_lookup(s, k) by {
            assert(assoc_lookup(s.push(e), k) == assoc_lookup(s.push(e).drop_first(), k));
        }
    } else {
        lemma_assoc_push(s.drop_first(), e);
        assert(s.push(e)[0] == s[0]);
        assert(s.push(e).drop_first() =~= s.drop_first().push(e));
        assert forall|k: Seq<char>| k != e.0@ implies #[trigger] assoc_lookup(s.push(e), k)
            == assoc_lookup(s, k) by {
            if s[0].0@ == k {
                assert(assoc_lookup(s.push(e), k) == Some(s[0].1));
                assert(assoc_lookup(s, k) == Some(s[0].1));
            } else {
                assert(assoc_lookup(s.push(e), k) == assoc_lookup(s.drop_first().push(e), k));
                assert(assoc_lookup(s.drop_first().push(e), k) == assoc_lookup(s.drop_first(), k));
                assert(assoc_lookup(s, k) == assoc_lookup(s.drop_first(), k));
            }
        }
    }
}

/// The per-client rate limiter: a bucket map keyed by client address,
/// with the configured default quota.
pub struct RateLimitBlock {
    pub max_requests: u32,
    pub window_secs: u64,
    pub buckets: Vec<(String, RateBucket)>,
}

impl RateLimitBlock {
    /// One bucket per distinct client address.
    pub closed spec fn wf(&self) -> bool {
        forall|i: int, j: int|
            0 <= i < j < self.buckets@.len() ==> (#[trigger] self.buckets@[i]).0@ != (
            #[trigger] self.buckets@[j]).0@
    }

    /// The bucket stored for a client address.
    pub closed spec fn bucket_of(&self, key: Seq<char>) -> Option<RateBucket> {
        assoc_lookup(self.buckets@, key)
    }

    /// The defaults: 100 requests per 60-second window, no buckets yet.
    pub fn new() -> (r: Self)
        ensures
            r.max_requests == 100,
            r.window_secs == 60,
            r.wf(),
            forall|k: Seq<char>| #[trigger] r.bucket_of(k) is None,
    {
        let r = RateLimitBlock { max_requests: 100, window_secs: 60, buckets: Vec::new() };
        proof {
            assert forall|k: Seq<char>| #[trigger] r.bucket_of(k) is None by {
                assert(r.buckets@.len() == 0);
            }
        }
        r
    }

    /// The quota in force for one call: a parseable per-call override
    /// wins over the block default.
    pub fn effective_limits(&self, max_cfg: Option<&str>, window_cfg: Option<&str>) -> (r: (
        u32,
        u64,
    ))
        ensures
            r.0 == match max_cfg {
                Some(s) => if crate::strutil::u32_parsable(s@) {
                    crate::strutil::dec_val(crate::strutil::unsigned_digits(s@)) as u32
                } else {
                    self.max_requests
                },
                None => self.max_requests,
            },
            r.1 == match window_cfg {
                Some(s) => if crate::strutil::u64_parsable(s@) {
                    crate::strutil::dec_val(crate::strutil::unsigned_digits(s@)) as u64
                } else {
                    self.window_secs
                },
                None => self.window_secs,
            },
    {
        let max = match max_cfg {
            Some(s) => match crate::strutil::parse_u32(s) {
                Some(v) => v,
                None => self.max_requests,
            },
            None => self.max_requests,
        };
        let window = match window_cfg {
            Some(s) => match crate::strutil::parse_u64(s) {
                Some(v) => v,
                None => self.window_secs,
            },
            None => self.window_secs,
        };
        (max, window)
    }

    /// Admit or reject one request from `addr` at monotonic second
    /// `now`, under quota `max` per `window` seconds.  An empty address
    /// bypasses limiting and leaves the map untouched; otherwise the
    /// address's bucket — fresh, expired-and-reset, or current — is
    /// stepped and stored back, and no other client's bucket changes.
    pub fn handle(&mut self, addr: &str, now: u64, max: u32, window: u64) -> (r: RateDecision)
        requires
            old(self).wf(),
        ensures
            final(self).wf(),
            final(self).max_requests == old(self).max_requests,
            final(self).window_secs == old(self).window_secs,
            addr@.len() == 0 ==> r == RateDecision::Bypass && final(self).bucket_of_all()
                =~= old(self).bucket_of_all(),
            addr@.len() == 0 ==> *final(self) == *old(self),
            addr@.len() > 0 ==> {
                &&& r == step_decision(old(self).bucket_of(addr@), now, max, window)
                &&& final(self).bucket_of(addr@) == Some(
                    stepped_bucket(old(self).bucket_of(addr@), now, window),
                )
                &&& forall|k: Seq<char>|
                    k != addr@ ==> #[trigger] final(self).bucket_of(k) == old(self).bucket_of(k)
            },
    {
        if addr.is_empty() {
            return RateDecision::Bypass;
        }
        let n = self.buckets.len();
        let mut i: usize = 0;
        while i < n
            invariant
                n == self.buckets@.len(),
                i <= n,
                self.buckets@ == old(self).buckets@,
                self.max_requests == old(self).max_requests,
                self.window_secs == old(self).window_secs,
                old(self).wf(),
                addr@.len() > 0,
                forall|j: int| 0 <= j < i ==> (#[trigger] self.buckets@[j]).0@ != addr@,
            decreases n - i,
        {
            if str_eq(self.buckets[i].0.as_str(), addr) {
                let found = self.buckets[i].1;
                let (nb, decision) = rate_step(Some(found), now, max, window);
                let ghost pre = self.buckets@;
                self.buckets[i].1 = nb;
                proof {
                    lemma_assoc_skip(pre, addr@, i as int);
                    assert(pre.skip(i as int)[0] == pre[i as int]);
                    assert(assoc_lookup(pre.skip(i as int), addr@) == Some(pre[i as int].1));
                    assert(self.buckets@ == pre.update(
                        i as int,
                        (pre[i as int].0, nb),
                    ));
                    lemma_assoc_update(pre, i as int, (pre[i as int].0, nb), addr@);
                    assert forall|x: int, y: int|
                        0 <= x < y < self.buckets@.len() implies (#[trigger] self.buckets@[x]).0@
                        != (#[trigger] self.buckets@[y]).0@ by {
                        assert(self.buckets@[x].0@ == pre[x].0@);
                        assert(self.buckets@[y].0@ == pre[y].0@);
                    }
                }
                return decision;
            }
            i += 1;
        }
        let (nb, decision) = rate_step(None, now, max, window);
        let ghost pre = self.buckets@;
        proof {
            lemma_assoc_skip(pre, addr@, n as int);
            assert(pre.skip(n as int) =~= Seq::<(String, RateBucket)>::empty());
        }
        let entry = (addr.to_owned(), nb);
        proof {
            lemma_assoc_push(pre, entry);
        }
        self.buckets.push(entry);
        proof {
            assert forall|x: int, y: int|
                0 <= x < y < self.buckets@.len() implies (#[trigger] self.buckets@[x]).0@ != (
                #[trigger] self.buckets@[y]).0@ by {
                if y < pre.len() {
                } else {
                    assert(self.buckets@[y] == entry);
                    assert(self.buckets@[x] == pre[x]);
                }
            }
        }
        decision
    }

    /// The whole bucket map, for framing in contracts.
    pub closed spec fn bucket_of_all(&self) -> Seq<(String, RateBucket)> {
        self.buckets@
    }
}

/// The response headers an admission decision attaches: the quota and
/// what is left of it, and on rejection the seconds to wait.
pub fn rate_headers(d: &RateDecision) -> (r: Vec<(String, String)>)
    ensures
        pair_views(r@) == rate_headers_spec(*d),
{
    let mut r: Vec<(String, String)> = Vec::new();
    match d {
        RateDecision::Bypass => {},
        RateDecision::Allowed { limit, remaining } => {
            r.push((String::from_str("X-RateLimit-Limit"), u64_to_string(*limit as u64)));
            r.push((String::from_str("X-RateLimit-Remaining"), u64_to_string(*remaining as u64)));
        },
        RateDecision::Limited { limit, retry_after } => {
            r.push((String::from_str("Retry-After"), u64_to_string(*retry_after)));
            r.push((String::from_str("X-RateLimit-Limit"), u64_to_string(*limit as u64)));
            r.push((String::from_str("X-RateLimit-Remaining"), String::from_str("0")));
            proof {
                reveal_strlit("0");
            }
        },
    }
    proof {
        reveal_strlit("0");
        assert(pair_views(r@) =~~= rate_headers_spec(*d));
    }
    r
}

/// The header entries of each decision.
pub open spec fn rate_headers_spec(d: RateDecision) -> Seq<(Seq<char>, Seq<char>)> {
    match d {
        RateDecision::Bypass => Seq::<(Seq<char>, Seq<char>)>::empty(),
        RateDecision::Allowed { limit, remaining } => seq![
            ("X-RateLimit-Limit"@, dec_str(limit as int)),
            ("X-RateLimit-Remaining"@, dec_str(remaining as int)),
        ],
        RateDecision::Limited { limit, retry_after } => seq![
            ("Retry-After"@, dec_str(retry_after as int)),
            ("X-RateLimit-Limit"@, dec_str(limit as int)),
            ("X-RateLimit-Remaining"@, seq!['0']),
        ],
    }
}

/// The bucket standing after a run of requests at the given seconds,
/// from no bucket.
pub open spec fn bucket_after(ts: Seq<u64>, window: u64) -> Option<RateBucket>
    decreases ts.len(),
{
    if ts.len() == 0 {
        None
    } else {
        Some(stepped_bucket(bucket_after(ts.drop_last(), window), ts.last(), window))
    }
}

/// Requests all falling inside one window count up one by one: after
/// `k` of them the bucket holds count `k` with the window anchored at
/// the first request's second.
pub proof fn lemma_window_counts(ts: Seq<u64>, window: u64)
    requires
        ts.len() >= 1,
        ts.len() <= u32::MAX,
        forall|i: int| 0 <= i < ts.len() ==> elapsed_of(#[trigger] ts[i], ts[0]) <= window,
    ensures
        bucket_after(ts, window) == Some(
            RateBucket { count: ts.len() as u32, window_start: ts[0] },
        ),
    decreases ts.len(),
{
    if ts.len() == 1 {
    } else {
        lemma_window_counts(ts.drop_last(), window);
        assert(ts.drop_last()[0] == ts[0]);
        assert(elapsed_of(ts.last(), ts[0]) <= window);
    }
}

/// Within one window, the first `max` requests are admitted and the
/// `max`-plus-first is rejected, with the whole window as the retry
/// bound.
pub proof fn lemma_window_quota(ts: Seq<u64>, max: u32, window: u64)
    requires
        ts.len() == max + 1,
        max < u32::MAX,
        forall|i: int| 0 <= i < ts.len() ==> elapsed_of(#[trigger] ts[i], ts[0]) <= window,
    ensures
        forall|k: int|
            0 <= k < max ==> (#[trigger] step_decision(
                bucket_after(ts.take(k), window),
                ts[k],
                max,
                window,
            )) matches RateDecision::Allowed { limit, remaining },
        step_decision(bucket_after(ts.take(max as int), window), ts[max as int], max, window)
            matches RateDecision::Limited { limit, retry_after } && limit == max && retry_after
            <= window,
{
    assert forall|k: int|
        0 <= k < max implies (#[trigger] step_decision(
        bucket_after(ts.take(k), window),
        ts[k],
        max,
        window,
    )) matches RateDecision::Allowed { limit, remaining } by {
        if k == 0 {
            assert(bucket_after(ts.take(0), window) is None);
        } else {
            assert forall|i: int| 0 <= i < k implies elapsed_of(#[trigger] ts.take(k)[i], ts.take(k)[0])
                <= window by {
                assert(ts.take(k)[i] == ts[i]);
            }
            lemma_window_counts(ts.take(k), window);
            assert(ts.take(k)[0] == ts[0]);
        }
        assert(stepped_bucket(bucket_after(ts.take(k), window), ts[k], window).count == k + 1);
    }
    let pre = ts.take(max as int);
    if max == 0 {
        assert(bucket_after(pre, window) is None);
        assert(stepped_bucket(None, ts[0], window).count == 1);
    } else {
        assert forall|i: int| 0 <= i < max implies elapsed_of(#[trigger] pre[i], pre[0])
            <= window by {
            assert(pre[i] == ts[i]);
        }
        lemma_window_counts(pre, window);
        assert(pre[0] == ts[0]);
        assert(elapsed_of(ts[max as int], ts[0]) <= window);
        assert(stepped_bucket(bucket_after(pre, window), ts[max as int], window).count == max + 1);
    }
}

/// The first request after a window has expired is always admitted,
/// with the counter reset to one and the window re-anchored at it.
pub proof fn lemma_expired_window_resets(b: RateBucket, now: u64, max: u32, window: u64)
    requires
        elapsed_of(now, b.window_start) > window,
        max >= 1,
    ensures
        stepped_bucket(Some(b), now, window) == (RateBucket { count: 1, window_start: now }),
        (step_decision(Some(b), now, max, window) matches RateDecision::Allowed {
            limit,
            remaining,
        } && limit == max && remaining == max - 1),
{
}

/// A rejection never asks the client to wait longer than the window.
pub proof fn lemma_retry_after_bound(b: Option<RateBucket>, now: u64, max: u32, window: u64)
    ensures
        step_decision(b, now, max, window) matches RateDecision::Limited { limit, retry_after }
            ==> retry_after <= window,
{
}

} // verus!
