//! Tenant isolation: allow and deny lists, a per-tenant ceiling on live connections,
//! and a per-tenant one-second rate window.

use vstd::prelude::*;
use crate::config::{Config, list_view, opt_list_view};
use crate::text::{chars_of, string_of, same_text, has_key, first_key_at, lemma_first_key_exists, lookup_first, lemma_lookup_first, set_entry, lemma_set_entry};

verus! {

/// Milliseconds in a rate window.
pub const RATE_WINDOW_MS: u64 = 1000;

/// The runtime state of one tenant.
#[derive(Clone, Copy, Debug, PartialEq, Eq)]
pub struct TenantSlot {
    /// Live acquisitions.
    pub active: u32,
    /// When the current rate window began, in milliseconds.
    pub window_start: u64,
    /// Acquisitions that succeeded in the current rate window.
    pub window_count: u32,
}

/// Why a tenant was turned away.
#[derive(Clone, Copy, Debug, PartialEq, Eq)]
pub enum TenantRejection {
    /// The tenant is on the deny list.
    Denied,
    /// An allow list is set and the tenant is not on it.
    NotAllowed,
    /// The tenant already holds its maximum of live connections.
    ConnectionLimit,
    /// The tenant used up its acquisitions for the current second.
    RateLimit,
}

/// A live acquisition; hand it back with `TenantRegistry::release`.
pub struct TenantGuard {
    pub tenant: String,
}

/// Per-tenant limits and state.
pub struct TenantRegistry {
    tenants: Vec<(String, TenantSlot)>,
    allow: Option<Vec<String>>,
    deny: Option<Vec<String>>,
    max_connections: Option<u32>,
    rate_limit: Option<u32>,
}


/// The slot after restarting its rate window when a rate limit is set and the window is a
/// second old or older at `now`.
pub open spec fn windowed(s: TenantSlot, now: u64, rate: Option<u32>) -> TenantSlot {
    if rate is Some && now >= s.window_start && now - s.window_start >= RATE_WINDOW_MS {
        TenantSlot { window_start: now, window_count: 0, ..s }
    } else {
        s
    }
}

/// One acquisition at `now` on slot `s`: whether it is admitted, and the slot after it.
pub open spec fn acquired(s: TenantSlot, now: u64, max: Option<u32>, rate: Option<u32>) -> (bool, TenantSlot) {
    let limited = s.active == u32::MAX || (max matches Some(m) && s.active >= m);
    let w = windowed(s, now, rate);
    let rated = rate matches Some(l) && w.window_count >= l;
    if limited {
        (false, s)
    } else if rated {
        (false, w)
    } else {
        (true, TenantSlot {
            active: (s.active + 1) as u32,
            window_start: w.window_start,
            window_count: if rate is None { w.window_count } else { (w.window_count + 1) as u32 },
        })
    }
}

/// Acquisitions at the times `ts`, in order, from slot `s` (no release in between): how many
/// were admitted, and the slot after them.
pub open spec fn acquired_all(s: TenantSlot, ts: Seq<u64>, max: Option<u32>, rate: Option<u32>) -> (nat, TenantSlot)
    decreases ts.len(),
{
    if ts.len() == 0 {
        (0, s)
    } else {
        let before = acquired_all(s, ts.drop_last(), max, rate);
        let step = acquired(before.1, ts.last(), max, rate);
        (before.0 + if step.0 { 1nat } else { 0nat }, step.1)
    }
}

/// Within one rate window (every call less than a second after the window began), at most
/// the allowance less what the window already admitted is admitted; for a tenant's first
/// window that is at most the allowance.
pub proof fn lemma_rate_window(s: TenantSlot, ts: Seq<u64>, max: Option<u32>, limit: u32)
    requires
        s.window_count <= limit,
        forall|i: int| 0 <= i < ts.len() ==> s.window_start <= #[trigger] ts[i] && ts[i] - s.window_start < RATE_WINDOW_MS,
    ensures
        acquired_all(s, ts, max, Some(limit)).0 + s.window_count <= limit,
        acquired_all(s, ts, max, Some(limit)).1.window_start == s.window_start,
        acquired_all(s, ts, max, Some(limit)).1.window_count == s.window_count + acquired_all(s, ts, max, Some(limit)).0,
    decreases ts.len(),
{
    if ts.len() > 0 {
        let p = ts.drop_last();
        assert forall|i: int| 0 <= i < p.len() implies s.window_start <= #[trigger] p[i] && p[i] - s.window_start < RATE_WINDOW_MS by {
            assert(p[i] == ts[i]);
        }
        lemma_rate_window(s, p, max, limit);
        assert(ts.last() == ts[ts.len() - 1]);
    }
}

/// The slot a tenant starts with.
pub open spec fn fresh_slot(now: u64) -> TenantSlot {
    TenantSlot { active: 0, window_start: now, window_count: 0 }
}

impl TenantRegistry {
    pub closed spec fn slots(&self) -> Seq<(Seq<char>, TenantSlot)> {
        self.tenants@.map_values(|e: (String, TenantSlot)| (e.0@, e.1))
    }

    pub closed spec fn allow_list(&self) -> Option<Seq<Seq<char>>> {
        match self.allow {
            Some(v) => Some(list_view(v)),
            None => None,
        }
    }

    pub closed spec fn deny_list(&self) -> Option<Seq<Seq<char>>> {
        match self.deny {
            Some(v) => Some(list_view(v)),
            None => None,
        }
    }

    pub closed spec fn max_conn(&self) -> Option<u32> {
        self.max_connections
    }

    pub closed spec fn rate(&self) -> Option<u32> {
        self.rate_limit
    }

    /// The state of `tenant`, if it was ever seen.
    pub open spec fn slot(&self, tenant: Seq<char>) -> Option<TenantSlot> {
        lookup_first(self.slots(), tenant)
    }

    /// Every tenant is within its ceiling and its rate window's allowance.
    pub open spec fn wf(&self) -> bool {
        forall|i: int| 0 <= i < self.slots().len() ==> {
            &&& (self.max_conn() matches Some(m) ==> (#[trigger] self.slots()[i]).1.active <= m)
            &&& (self.rate() matches Some(l) ==> self.slots()[i].1.window_count <= l)
        }
    }

    /// A registry with the tenant lists and limits of `config`, and no tenant seen yet.
    pub fn new(config: &Config) -> (r: Self)
        ensures
            r.wf(),
            r.slots().len() == 0,
            r.allow_list() == opt_list_view(config.tenant_allow),
            r.deny_list() == opt_list_view(config.tenant_deny),
            r.max_conn() == config.tenant_max_connections,
            r.rate() == config.tenant_rate_limit,
    {
        let r = TenantRegistry {
            tenants: Vec::new(),
            allow: copy_list(&config.tenant_allow),
            deny: copy_list(&config.tenant_deny),
            max_connections: config.tenant_max_connections,
            rate_limit: config.tenant_rate_limit,
        };
        assert(r.slots() =~= Seq::<(Seq<char>, TenantSlot)>::empty());
        r
    }

    /// Checks the deny list, then the allow list.
    pub fn check_access(&self, tenant_id: &str) -> (r: Result<(), TenantRejection>)
        ensures
            (self.deny_list() matches Some(d) && d.contains(tenant_id@)) ==> r == Err::<(), TenantRejection>(TenantRejection::Denied),
            !(self.deny_list() matches Some(d) && d.contains(tenant_id@)) && (self.allow_list() matches Some(a) && !a.contains(tenant_id@))
                ==> r == Err::<(), TenantRejection>(TenantRejection::NotAllowed),
            !(self.deny_list() matches Some(d) && d.contains(tenant_id@)) && !(self.allow_list() matches Some(a) && !a.contains(tenant_id@))
                ==> r is Ok,
    {
        match &self.deny {
            Some(d) => {
                if list_contains(d, tenant_id) {
                    return Err(TenantRejection::Denied);
                }
            },
            None => {},
        }
        match &self.allow {
            Some(a) => {
                if !list_contains(a, tenant_id) {
                    return Err(TenantRejection::NotAllowed);
                }
            },
            None => {},
        }
        Ok(())
    }

    fn index_of(&self, key: &str) -> (r: Option<usize>)
        ensures
            r matches Some(i) ==> first_key_at(self.slots(), key@, i as int),
            r is None ==> !has_key(self.slots(), key@),
    {
        let mut i: usize = 0;
        while i < self.tenants.len()
            invariant
                i <= self.slots().len(),
                self.slots().len() == self.tenants@.len(),
                forall|j: int| 0 <= j < i ==> (#[trigger] self.slots()[j]).0 != key@,
            decreases self.slots().len() - i,
        {
            if same_text(self.tenants[i].0.as_str(), key) {
                return Some(i);
            }
            i += 1;
        }
        None
    }

    fn put_slot(&mut self, tenant: &str, slot: TenantSlot)
        ensures
            final(self).slots() == set_entry(old(self).slots(), tenant@, slot),
            final(self).allow_list() == old(self).allow_list(),
            final(self).deny_list() == old(self).deny_list(),
            final(self).max_conn() == old(self).max_conn(),
            final(self).rate() == old(self).rate(),
    {
        let key = string_of(chars_of(tenant).as_slice());
        proof { lemma_set_entry(self.slots(), tenant@, slot); }
        match self.index_of(tenant) {
            Some(i) => {
                self.tenants.set(i, (key, slot));
                assert(self.slots() =~= old(self).slots().update(i as int, (tenant@, slot)));
            },
            None => {
                self.tenants.push((key, slot));
                assert(self.slots() =~= old(self).slots().push((tenant@, slot)));
            },
        }
    }

    fn get_slot(&self, tenant: &str) -> (r: Option<TenantSlot>)
        ensures
            r == self.slot(tenant@),
    {
        proof { lemma_lookup_first(self.slots(), tenant@); }
        match self.index_of(tenant) {
            Some(i) => Some(self.tenants[i].1),
            None => None,
        }
    }

    /// Takes a connection slot for `tenant_id` at time `now_ms`: refused when the tenant holds
    /// its maximum of live connections, or when its current one-second window already saw
    /// its allowance. A window a second old or older is restarted at `now_ms` first.
    pub fn acquire(&mut self, tenant_id: &str, now_ms: u64) -> (r: Result<TenantGuard, TenantRejection>)
        requires
            old(self).wf(),
        ensures
            final(self).wf(),
            final(self).allow_list() == old(self).allow_list(),
            final(self).deny_list() == old(self).deny_list(),
            final(self).max_conn() == old(self).max_conn(),
            final(self).rate() == old(self).rate(),
            ({
                let s = match old(self).slot(tenant_id@) { Some(s) => s, None => fresh_slot(now_ms) };
                let limited = s.active == u32::MAX || (old(self).max_conn() matches Some(m) && s.active >= m);
                let w = windowed(s, now_ms, old(self).rate());
                let rated = old(self).rate() matches Some(l) && w.window_count >= l;
                &&& (limited ==> r == Err::<TenantGuard, TenantRejection>(TenantRejection::ConnectionLimit)
                    && final(self).slot(tenant_id@) == Some(s))
                &&& (!limited && rated ==> r == Err::<TenantGuard, TenantRejection>(TenantRejection::RateLimit)
                    && final(self).slot(tenant_id@) == Some(w))
                &&& (!limited && !rated ==> (r is Ok && r->Ok_0.tenant@ == tenant_id@
                    && final(self).slot(tenant_id@) == Some(TenantSlot {
                        active: (s.active + 1) as u32,
                        window_start: w.window_start,
                        window_count: if old(self).rate() is None { w.window_count } else { (w.window_count + 1) as u32 },
                    })))
                &&& forall|t: Seq<char>| t != tenant_id@ ==> final(self).slot(t) == old(self).slot(t)
                &&& (r is Ok) == acquired(s, now_ms, old(self).max_conn(), old(self).rate()).0
                &&& final(self).slot(tenant_id@) == Some(acquired(s, now_ms, old(self).max_conn(), old(self).rate()).1)
            }),
    {
        let s = match self.get_slot(tenant_id) {
            Some(s) => s,
            None => TenantSlot { active: 0, window_start: now_ms, window_count: 0 },
        };
        proof {
            lemma_set_entry(self.slots(), tenant_id@, s);
            self.lemma_slot_bounded(tenant_id@);
        }
        if s.active == u32::MAX || (match self.max_connections { Some(m) => s.active >= m, None => false }) {
            proof { lemma_slot_after_set(self.slots(), tenant_id@, s); }
            self.put_slot(tenant_id, s);
            proof { self.lemma_wf_after_put(old(self), tenant_id@, s); }
            return Err(TenantRejection::ConnectionLimit);
        }
        let mut next = s;
        match self.rate_limit {
            Some(l) => {
                if now_ms >= s.window_start && now_ms - s.window_start >= RATE_WINDOW_MS {
                    next.window_start = now_ms;
                    next.window_count = 0;
                }
                if next.window_count >= l {
                    proof { lemma_slot_after_set(self.slots(), tenant_id@, next); }
                    self.put_slot(tenant_id, next);
                    proof { self.lemma_wf_after_put(old(self), tenant_id@, next); }
                    return Err(TenantRejection::RateLimit);
                }
                next.window_count = next.window_count + 1;
            },
            None => {},
        }
        next.active = s.active + 1;
        proof { lemma_slot_after_set(old(self).slots(), tenant_id@, next); }
        self.put_slot(tenant_id, next);
        proof { self.lemma_wf_after_put(old(self), tenant_id@, next); }
        Ok(TenantGuard { tenant: string_of(chars_of(tenant_id).as_slice()) })
    }

    proof fn lemma_wf_after_put(&self, before: &Self, t: Seq<char>, slot: TenantSlot)
        requires
            before.wf(),
            self.slots() == set_entry(before.slots(), t, slot),
            self.max_conn() == before.max_conn(),
            self.rate() == before.rate(),
            before.max_conn() matches Some(m) ==> slot.active <= m,
            before.rate() matches Some(l) ==> slot.window_count <= l,
        ensures
            self.wf(),
    {
        lemma_set_entry(before.slots(), t, slot);
        let ps = before.slots();
        if has_key(ps, t) {
            lemma_first_key_exists(ps, t);
            let j = choose|j: int| first_key_at(ps, t, j);
            assert(self.slots() == ps.update(j, (t, slot)));
        } else {
            assert(self.slots() == ps.push((t, slot)));
        }
        assert forall|i: int| 0 <= i < self.slots().len() implies {
            &&& (self.max_conn() matches Some(m) ==> (#[trigger] self.slots()[i]).1.active <= m)
            &&& (self.rate() matches Some(l) ==> self.slots()[i].1.window_count <= l)
        } by {
            if i < ps.len() && self.slots()[i] == ps[i] {
                assert(before.max_conn() matches Some(m) ==> ps[i].1.active <= m);
            }
        }
    }

    proof fn lemma_slot_bounded(&self, t: Seq<char>)
        requires
            self.wf(),
        ensures
            self.slot(t) matches Some(s) ==> {
                &&& (self.max_conn() matches Some(m) ==> s.active <= m)
                &&& (self.rate() matches Some(l) ==> s.window_count <= l)
            },
    {
        lemma_slot_in(self.slots(), t);
        if self.slot(t) is Some {
            let i = choose|i: int| 0 <= i < self.slots().len() && self.slots()[i].1 == self.slot(t)->Some_0;
            assert(self.max_conn() matches Some(m) ==> self.slots()[i].1.active <= m);
        }
    }

    /// Hands a connection slot back: the tenant's live count drops by one.
    pub fn release(&mut self, guard: TenantGuard)
        requires
            old(self).wf(),
        ensures
            final(self).wf(),
            final(self).allow_list() == old(self).allow_list(),
            final(self).deny_list() == old(self).deny_list(),
            final(self).max_conn() == old(self).max_conn(),
            final(self).rate() == old(self).rate(),
            (old(self).slot(guard.tenant@) is Some && old(self).slot(guard.tenant@)->Some_0.active > 0) ==>
                final(self).slot(guard.tenant@) == Some(TenantSlot {
                    active: (old(self).slot(guard.tenant@)->Some_0.active - 1) as u32,
                    ..old(self).slot(guard.tenant@)->Some_0
                }),
            forall|t: Seq<char>| t != guard.tenant@ ==> final(self).slot(t) == old(self).slot(t),
    {
        match self.get_slot(guard.tenant.as_str()) {
            Some(s) => {
                proof { self.lemma_slot_bounded(guard.tenant@); }
                if s.active > 0 {
                    let next = TenantSlot { active: s.active - 1, ..s };
                    proof { lemma_slot_after_set(self.slots(), guard.tenant@, next); }
                    self.put_slot(guard.tenant.as_str(), next);
                    proof {
                        lemma_lookup_first(old(self).slots(), guard.tenant@);
                        lemma_slot_in(old(self).slots(), guard.tenant@);
                        self.lemma_wf_after_put(old(self), guard.tenant@, next);
                    }
                }
            },
            None => {},
        }
    }

    /// The live connection count of `tenant_id`.
    pub fn active_connections(&self, tenant_id: &str) -> (r: u32)
        ensures
            r == (match self.slot(tenant_id@) { Some(s) => s.active, None => 0 }),
    {
        match self.get_slot(tenant_id) {
            Some(s) => s.active,
            None => 0,
        }
    }
}

proof fn lemma_slot_after_set(ps: Seq<(Seq<char>, TenantSlot)>, t: Seq<char>, slot: TenantSlot)
    ensures
        lookup_first(set_entry(ps, t, slot), t) == Some(slot),
        forall|u: Seq<char>| u != t ==> lookup_first(set_entry(ps, t, slot), u) == lookup_first(ps, u),
    decreases ps.len(),
{
    if ps.len() > 0 && ps[0].0 != t {
        lemma_slot_after_set(ps.drop_first(), t, slot);
        let q = set_entry(ps, t, slot);
        assert(q.drop_first() =~= set_entry(ps.drop_first(), t, slot));
        assert(q.len() > 0);
        assert(q[0] == ps[0]);
        assert forall|u: Seq<char>| u != t implies lookup_first(q, u) == lookup_first(ps, u) by {
            if ps[0].0 != u {
                assert(lookup_first(q, u) == lookup_first(q.drop_first(), u));
                assert(lookup_first(ps, u) == lookup_first(ps.drop_first(), u));
                assert(lookup_first(set_entry(ps.drop_first(), t, slot), u) == lookup_first(ps.drop_first(), u));
            } else {
                assert(lookup_first(q, u) == Some(q[0].1));
            }
        }
    } else if ps.len() > 0 {
        let q = set_entry(ps, t, slot);
        assert(q.drop_first() =~= ps.drop_first());
        assert forall|u: Seq<char>| u != t implies lookup_first(q, u) == lookup_first(ps, u) by {
            assert(lookup_first(q, u) == lookup_first(q.drop_first(), u));
        }
    } else {
        let q = set_entry(ps, t, slot);
        assert(q[0] == (t, slot));
        assert(q.drop_first() =~= Seq::<(Seq<char>, TenantSlot)>::empty());
        assert forall|u: Seq<char>| u != t implies lookup_first(q, u) == lookup_first(ps, u) by {
            assert(lookup_first(q, u) == lookup_first(q.drop_first(), u));
        }
    }
}

proof fn lemma_slot_in(ps: Seq<(Seq<char>, TenantSlot)>, t: Seq<char>)
    ensures
        lookup_first(ps, t) matches Some(s) ==> exists|i: int| 0 <= i < ps.len() && ps[i].1 == s,
    decreases ps.len(),
{
    if ps.len() > 0 && ps[0].0 != t {
        lemma_slot_in(ps.drop_first(), t);
        if lookup_first(ps, t) is Some {
            let i = choose|i: int| 0 <= i < ps.drop_first().len() && ps.drop_first()[i].1 == lookup_first(ps, t)->Some_0;
            assert(ps[i + 1].1 == lookup_first(ps, t)->Some_0);
        }
    } else if ps.len() > 0 {
        assert(ps[0].1 == lookup_first(ps, t)->Some_0);
    }
}

fn copy_list(l: &Option<Vec<String>>) -> (r: Option<Vec<String>>)
    ensures
        opt_list_view(r) == opt_list_view(*l),
{
    match l {
        Some(v) => {
            let mut out: Vec<String> = Vec::new();
            let mut i: usize = 0;
            while i < v.len()
                invariant
                    i <= v@.len(),
                    list_view(out) == list_view(*v).subrange(0, i as int),
                decreases v@.len() - i,
            {
                let ghost before = list_view(out);
                let t = v[i].clone();
                out.push(t);
                assert(list_view(out) =~= before.push(t@));
                assert(list_view(*v).subrange(0, i + 1) =~= list_view(*v).subrange(0, i as int).push(v@[i as int]@));
                i += 1;
            }
            assert(list_view(*v).subrange(0, v@.len() as int) =~= list_view(*v));
            Some(out)
        },
        None => None,
    }
}

/// Whether `name` is in `list`.
fn list_contains(list: &Vec<String>, name: &str) -> (r: bool)
    ensures
        r == list_view(*list).contains(name@),
{
    let mut i: usize = 0;
    while i < list.len()
        invariant
            i <= list@.len(),
            forall|j: int| 0 <= j < i ==> (#[trigger] list@[j])@ != name@,
        decreases list@.len() - i,
    {
        if same_text(list[i].as_str(), name) {
            assert(list_view(*list)[i as int] == name@);
            return true;
        }
        i += 1;
    }
    proof {
        if list_view(*list).contains(name@) {
            let j = choose|j: int| 0 <= j < list_view(*list).len() && list_view(*list)[j] == name@;
            assert(list@[j]@ == name@);
        }
    }
    false
}

/// No tenant holds more live connections than the ceiling, and no rate window has seen more
/// successful acquisitions than the allowance.
pub proof fn lemma_tenant_limits_hold(reg: &TenantRegistry, tenant: Seq<char>)
    requires
        reg.wf(),
    ensures
        reg.slot(tenant) matches Some(s) ==> {
            &&& (reg.max_conn() matches Some(m) ==> s.active <= m)
            &&& (reg.rate() matches Some(l) ==> s.window_count <= l)
        },
{
    lemma_slot_in(reg.slots(), tenant);
}

} // verus!
