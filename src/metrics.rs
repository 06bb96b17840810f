//! Lock-free counters shared by every connection.

use vstd::prelude::*;
use std::sync::atomic::{AtomicU64, Ordering};
use crate::text::{chars_of, string_of, decimal, decimal_chars};

verus! {

/// Shared metrics counters.
pub struct Metrics {
    pub connections_total: AtomicU64,
    pub connections_active: AtomicU64,
    pub pool_checkouts: AtomicU64,
    pub pool_reuses: AtomicU64,
    pub pool_creates: AtomicU64,
    pub pool_checkins: AtomicU64,
    pub pool_discards: AtomicU64,
    pub pool_timeouts: AtomicU64,
    pub resolver_cache_hits: AtomicU64,
    pub resolver_cache_misses: AtomicU64,
    /// Per-resolver execution counts, in resolver order.
    pub resolver_executions: Vec<AtomicU64>,
    /// Per-resolver error counts, in resolver order.
    pub resolver_errors: Vec<AtomicU64>,
    /// Resolver names, in resolver order.
    pub resolver_names: Vec<String>,
    pub tenant_rejected_deny: AtomicU64,
    pub tenant_rejected_limit: AtomicU64,
    pub tenant_rejected_rate: AtomicU64,
    pub tenant_timeouts: AtomicU64,
}

/// One less than `x`, or `None` at zero.
pub fn one_less(x: u64) -> (r: Option<u64>)
    ensures
        x == 0 ==> r is None,
        x > 0 ==> r == Some((x - 1) as u64),
{
    if x == 0 { None } else { Some(x - 1) }
}

/// Relies on `AtomicU64::fetch_update`: applies `one_less` atomically, leaving zero as it is.
#[verifier::external_body]
fn decrement_unless_zero(counter: &AtomicU64) {
    let _ = counter.fetch_update(Ordering::Relaxed, Ordering::Relaxed, one_less);
}

fn zeroed(n: usize) -> (r: Vec<AtomicU64>)
    ensures
        r@.len() == n,
{
    let mut v: Vec<AtomicU64> = Vec::new();
    let mut i: usize = 0;
    while i < n
        invariant
            i <= n,
            v@.len() == i,
        decreases n - i,
    {
        v.push(AtomicU64::new(0));
        i += 1;
    }
    v
}

impl Metrics {
    /// Zeroed counters, with one execution and one error counter per resolver name.
    pub fn new(resolver_names: Vec<String>) -> (r: Self)
        ensures
            r.resolver_executions@.len() == resolver_names@.len(),
            r.resolver_errors@.len() == resolver_names@.len(),
            r.resolver_names@ == resolver_names@,
    {
        let n = resolver_names.len();
        Metrics {
            connections_total: AtomicU64::new(0),
            connections_active: AtomicU64::new(0),
            pool_checkouts: AtomicU64::new(0),
            pool_reuses: AtomicU64::new(0),
            pool_creates: AtomicU64::new(0),
            pool_checkins: AtomicU64::new(0),
            pool_discards: AtomicU64::new(0),
            pool_timeouts: AtomicU64::new(0),
            resolver_cache_hits: AtomicU64::new(0),
            resolver_cache_misses: AtomicU64::new(0),
            resolver_executions: zeroed(n),
            resolver_errors: zeroed(n),
            resolver_names,
            tenant_rejected_deny: AtomicU64::new(0),
            tenant_rejected_limit: AtomicU64::new(0),
            tenant_rejected_rate: AtomicU64::new(0),
            tenant_timeouts: AtomicU64::new(0),
        }
    }

    /// Adds one to a counter and returns the previous value.
    pub fn inc(counter: &AtomicU64) -> u64 {
        counter.fetch_add(1, Ordering::Relaxed)
    }

    /// Takes one from a counter that is above zero, atomically.
    pub fn dec(counter: &AtomicU64) {
        decrement_unless_zero(counter);
    }
}

/// One line of the text exposition format: `name value`, or `name{labels} value` when
/// there are labels.
pub open spec fn metric_line(name: Seq<char>, labels: Seq<char>, value: nat) -> Seq<char> {
    if labels.len() == 0 {
        name + " "@ + decimal(value) + "\n"@
    } else {
        name + "{"@ + labels + "} "@ + decimal(value) + "\n"@
    }
}

fn append_chars(out: &mut Vec<char>, s: &str)
    ensures
        final(out)@ == old(out)@ + s@,
{
    let mut t = chars_of(s);
    out.append(&mut t);
}

/// Appends one metric line to `out`.
pub fn push_metric(out: &mut String, name: &str, labels: &str, value: u64)
    ensures
        final(out)@ == old(out)@ + metric_line(name@, labels@, value as nat),
{
    let mut text = chars_of(out.as_str());
    append_chars(&mut text, name);
    if labels.is_empty() {
        append_chars(&mut text, " ");
    } else {
        append_chars(&mut text, "{");
        append_chars(&mut text, labels);
        append_chars(&mut text, "} ");
    }
    let mut digits = decimal_chars(value);
    text.append(&mut digits);
    append_chars(&mut text, "\n");
    proof {
        reveal_strlit(" ");
        reveal_strlit("{");
        reveal_strlit("} ");
        reveal_strlit("\n");
    }
    assert(text@ =~= old(out)@ + metric_line(name@, labels@, value as nat));
    *out = string_of(text.as_slice());
}

} // verus!
