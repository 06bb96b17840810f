//! The session pool's bookkeeping: buckets keyed by `(database, role)`, each with its idle
//! sessions (oldest first), its total of sessions (idle and checked out), and the handshake
//! tail captured once from its first session. The caller performs the I/O between steps.

use vstd::prelude::*;
use crate::text::same_text;

verus! {

/// Identifies a bucket of interchangeable sessions.
pub struct PoolKey {
    pub database: String,
    pub role: String,
}

/// The ParameterStatus frames and the BackendKeyData frame that a fresh upstream session
/// sent before its first ReadyForQuery.
pub struct HandshakeTail {
    pub param_statuses: Vec<Vec<u8>>,
    pub backend_key_data: Vec<u8>,
}

/// The frames of a handshake tail.
pub open spec fn tail_view(t: HandshakeTail) -> (Seq<Seq<u8>>, Seq<u8>) {
    (t.param_statuses@.map_values(|f: Vec<u8>| f@), t.backend_key_data@)
}

/// An idle session and when it was last used, in milliseconds.
pub struct IdleSession<S> {
    pub session: S,
    pub last_used: u64,
}

struct PoolBucket<S> {
    database: String,
    role: String,
    idle: Vec<IdleSession<S>>,
    total: u32,
    in_use: u32,
    tail: Option<HandshakeTail>,
}

/// The outcome of asking for a session.
pub enum Checkout<S> {
    /// An idle session, to be reused.
    Reuse(S),
    /// A place was reserved: the caller opens a new session, then reports with
    /// `create_succeeded`, or gives the place back with `discard`.
    Create,
    /// The bucket is at capacity: wait and ask again.
    Full,
}

/// The pool's buckets and their capacity.
pub struct PoolState<S> {
    buckets: Vec<PoolBucket<S>>,
    pool_size: u32,
}

/// A bucket as plain values: its key, its idle sessions with their last use (oldest first),
/// its total, its checked-out count, and its handshake tail.
pub struct BucketView<S> {
    pub database: Seq<char>,
    pub role: Seq<char>,
    pub idle: Seq<(S, u64)>,
    pub total: nat,
    pub in_use: nat,
    pub tail: Option<(Seq<Seq<u8>>, Seq<u8>)>,
}

/// `b` is the bucket of `(database, role)`.
pub open spec fn is_key<S>(b: BucketView<S>, database: Seq<char>, role: Seq<char>) -> bool {
    b.database == database && b.role == role
}

/// `i` is the first bucket of `(database, role)`.
pub open spec fn first_bucket<S>(vs: Seq<BucketView<S>>, database: Seq<char>, role: Seq<char>, i: int) -> bool {
    &&& 0 <= i < vs.len()
    &&& is_key(vs[i], database, role)
    &&& forall|j: int| 0 <= j < i ==> !is_key(#[trigger] vs[j], database, role)
}

/// No bucket of `(database, role)`.
pub open spec fn no_bucket<S>(vs: Seq<BucketView<S>>, database: Seq<char>, role: Seq<char>) -> bool {
    forall|j: int| 0 <= j < vs.len() ==> !is_key(#[trigger] vs[j], database, role)
}

/// A session last used at `last_used` is still fresh at `now` under `timeout`.
pub open spec fn is_fresh(last_used: u64, now: u64, timeout: u64) -> bool {
    !(now >= last_used && now - last_used >= timeout)
}

/// The idle sessions that stay fresh, in order.
pub open spec fn fresh_idle<S>(idle: Seq<(S, u64)>, now: u64, timeout: u64) -> Seq<(S, u64)>
    decreases idle.len(),
{
    if idle.len() == 0 {
        Seq::empty()
    } else {
        fresh_idle(idle.drop_last(), now, timeout) + if is_fresh(idle.last().1, now, timeout) {
            seq![idle.last()]
        } else {
            Seq::empty()
        }
    }
}

/// A bucket after its stale idle sessions are dropped: the total falls by their number.
pub open spec fn reaped_bucket<S>(b: BucketView<S>, now: u64, timeout: u64) -> BucketView<S> {
    let kept = fresh_idle(b.idle, now, timeout);
    BucketView { idle: kept, total: (b.total - (b.idle.len() - kept.len())) as nat, ..b }
}

/// The buckets after reaping: each reaped, and those left with no session dropped, in order.
pub open spec fn reaped_buckets<S>(vs: Seq<BucketView<S>>, now: u64, timeout: u64) -> Seq<BucketView<S>>
    decreases vs.len(),
{
    if vs.len() == 0 {
        Seq::empty()
    } else {
        let b = reaped_bucket(vs.last(), now, timeout);
        reaped_buckets(vs.drop_last(), now, timeout) + if b.total > 0 { seq![b] } else { Seq::empty() }
    }
}

/// How many idle sessions reaping drops.
pub open spec fn reaped_count<S>(vs: Seq<BucketView<S>>, now: u64, timeout: u64) -> nat
    decreases vs.len(),
{
    if vs.len() == 0 {
        0
    } else {
        reaped_count(vs.drop_last(), now, timeout)
            + (vs.last().idle.len() - fresh_idle(vs.last().idle, now, timeout).len()) as nat
    }
}

proof fn lemma_fresh_idle_len<S>(idle: Seq<(S, u64)>, now: u64, timeout: u64)
    ensures
        fresh_idle(idle, now, timeout).len() <= idle.len(),
    decreases idle.len(),
{
    if idle.len() > 0 {
        lemma_fresh_idle_len(idle.drop_last(), now, timeout);
    }
}

spec fn idle_view<S>(v: Seq<IdleSession<S>>) -> Seq<(S, u64)> {
    v.map_values(|e: IdleSession<S>| (e.session, e.last_used))
}

spec fn bview<S>(b: PoolBucket<S>) -> BucketView<S> {
    BucketView {
        database: b.database@,
        role: b.role@,
        idle: idle_view(b.idle@),
        total: b.total as nat,
        in_use: b.in_use as nat,
        tail: match b.tail {
            Some(t) => Some(tail_view(t)),
            None => None,
        },
    }
}

impl<S> PoolState<S> {
    pub closed spec fn size(&self) -> nat {
        self.pool_size as nat
    }

    pub closed spec fn bucket_views(&self) -> Seq<BucketView<S>> {
        self.buckets@.map_values(|b: PoolBucket<S>| bview(b))
    }

    /// Every bucket counts exactly its idle and checked-out sessions, within capacity.
    pub open spec fn wf(&self) -> bool {
        forall|i: int| 0 <= i < self.bucket_views().len() ==> {
            &&& (#[trigger] self.bucket_views()[i]).total == self.bucket_views()[i].idle.len() + self.bucket_views()[i].in_use
            &&& self.bucket_views()[i].total <= self.size()
        }
    }

    pub fn new(pool_size: u32) -> (r: Self)
        ensures
            r.wf(),
            r.size() == pool_size,
            r.bucket_views().len() == 0,
    {
        let r = PoolState { buckets: Vec::new(), pool_size };
        assert(r.bucket_views() =~= Seq::<BucketView<S>>::empty());
        r
    }

    fn index_of(&self, key: &PoolKey) -> (r: Option<usize>)
        ensures
            r matches Some(i) ==> first_bucket(self.bucket_views(), key.database@, key.role@, i as int),
            r is None ==> no_bucket(self.bucket_views(), key.database@, key.role@),
    {
        let mut i: usize = 0;
        while i < self.buckets.len()
            invariant
                i <= self.buckets@.len(),
                forall|j: int| 0 <= j < i ==> !is_key(#[trigger] self.bucket_views()[j], key.database@, key.role@),
            decreases self.buckets@.len() - i,
        {
            if same_text(self.buckets[i].database.as_str(), key.database.as_str())
                && same_text(self.buckets[i].role.as_str(), key.role.as_str()) {
                return Some(i);
            }
            i += 1;
        }
        None
    }

    proof fn lemma_wf_update(&self, before: &Self, i: int)
        requires
            before.wf(),
            0 <= i < before.buckets@.len(),
            self.pool_size == before.pool_size,
            self.buckets@ == before.buckets@.update(i, self.buckets@[i]),
            self.buckets@[i].total == self.buckets@[i].idle@.len() + self.buckets@[i].in_use,
            self.buckets@[i].total <= self.pool_size,
        ensures
            self.wf(),
            self.bucket_views() == before.bucket_views().update(i, bview(self.buckets@[i])),
    {
        assert(self.bucket_views() =~= before.bucket_views().update(i, bview(self.buckets@[i])));
        assert forall|q: int| 0 <= q < self.bucket_views().len() implies {
            &&& (#[trigger] self.bucket_views()[q]).total == self.bucket_views()[q].idle.len() + self.bucket_views()[q].in_use
            &&& self.bucket_views()[q].total <= self.size()
        } by {
            if q != i {
                assert(self.bucket_views()[q] == before.bucket_views()[q]);
                assert(before.bucket_views()[q].total == before.bucket_views()[q].idle.len() + before.bucket_views()[q].in_use);
            }
        }
    }

    /// Asks for a session of `key` at time `now_ms`. In the key's bucket (made empty if there
    /// is none): the oldest idle session is reused if there is one; else, under capacity, a
    /// place is reserved (total and checked-out count rise by one); else the pool is `Full`
    /// and nothing changes.
    pub fn begin_checkout(&mut self, key: &PoolKey, now_ms: u64) -> (r: Checkout<S>)
        requires
            old(self).wf(),
        ensures
            final(self).wf(),
            final(self).size() == old(self).size(),
            ({
                let ov = old(self).bucket_views();
                let nv = final(self).bucket_views();
                let db = key.database@;
                let role = key.role@;
                &&& (forall|i: int| first_bucket(ov, db, role, i) ==> {
                    let b = ov[i];
                    &&& nv.len() == ov.len()
                    &&& forall|j: int| 0 <= j < ov.len() && j != i ==> nv[j] == ov[j]
                    &&& (b.idle.len() > 0 ==> (r matches Checkout::Reuse(s) && s == b.idle[0].0
                        && nv[i] == BucketView { idle: b.idle.drop_first(), in_use: b.in_use + 1, ..b }))
                    &&& (b.idle.len() == 0 && b.total < old(self).size() ==> (r is Create
                        && nv[i] == BucketView { total: b.total + 1, in_use: b.in_use + 1, ..b }))
                    &&& (b.idle.len() == 0 && b.total >= old(self).size() ==> (r is Full && nv == ov))
                })
                &&& (no_bucket(ov, db, role) ==> {
                    let fresh = BucketView::<S> { database: db, role: role, idle: Seq::empty(), total: 0, in_use: 0, tail: None };
                    &&& (old(self).size() > 0 ==> (r is Create
                        && nv == ov.push(BucketView { total: 1, in_use: 1, ..fresh })))
                    &&& (old(self).size() == 0 ==> (r is Full && nv == ov.push(fresh)))
                })
            }),
    {
        let ghost ov = self.bucket_views();
        let i = match self.index_of(key) {
            Some(i) => i,
            None => {
                let b = PoolBucket {
                    database: key.database.clone(),
                    role: key.role.clone(),
                    idle: Vec::new(),
                    total: 0,
                    in_use: 0,
                    tail: None,
                };
                self.buckets.push(b);
                proof {
                    assert(idle_view(self.buckets@[ov.len() as int].idle@) =~= Seq::<(S, u64)>::empty());
                    let fresh = BucketView::<S> { database: key.database@, role: key.role@, idle: Seq::empty(),
                        total: 0, in_use: 0, tail: None };
                    assert(self.bucket_views() =~= ov.push(fresh));
                    assert forall|q: int| 0 <= q < self.bucket_views().len() implies {
                        &&& (#[trigger] self.bucket_views()[q]).total == self.bucket_views()[q].idle.len() + self.bucket_views()[q].in_use
                        &&& self.bucket_views()[q].total <= self.size()
                    } by {
                        if q < ov.len() {
                            assert(self.bucket_views()[q] == ov[q]);
                        }
                    }
                }
                self.buckets.len() - 1
            },
        };
        let ghost mid = *self;
        assert(mid.bucket_views()[i as int].total == mid.bucket_views()[i as int].idle.len() + mid.bucket_views()[i as int].in_use);
        let mut b = self.buckets.remove(i);
        if b.idle.len() > 0 {
            let ghost bi = b.idle@;
            let e = b.idle.remove(0);
            b.in_use = b.in_use + 1;
            self.buckets.insert(i, b);
            proof {
                assert(self.buckets@ =~= mid.buckets@.update(i as int, self.buckets@[i as int]));
                assert(idle_view(self.buckets@[i as int].idle@) =~= idle_view(bi).drop_first());
                self.lemma_wf_update(&mid, i as int);
            }
            return Checkout::Reuse(e.session);
        }
        if b.total < self.pool_size {
            b.total = b.total + 1;
            b.in_use = b.in_use + 1;
            self.buckets.insert(i, b);
            proof {
                assert(self.buckets@ =~= mid.buckets@.update(i as int, self.buckets@[i as int]));
                self.lemma_wf_update(&mid, i as int);
            }
            return Checkout::Create;
        }
        self.buckets.insert(i, b);
        proof {
            assert(self.buckets@ =~= mid.buckets@);
        }
        Checkout::Full
    }

    /// Reports that the session for a reserved place is open: the key's bucket keeps `tail`
    /// as its handshake tail if it has none yet.
    pub fn create_succeeded(&mut self, key: &PoolKey, tail: HandshakeTail)
        requires
            old(self).wf(),
        ensures
            final(self).wf(),
            final(self).size() == old(self).size(),
            ({
                let ov = old(self).bucket_views();
                let nv = final(self).bucket_views();
                &&& (forall|i: int| first_bucket(ov, key.database@, key.role@, i) ==> {
                    &&& ov[i].tail is None ==> nv == ov.update(i, BucketView { tail: Some(tail_view(tail)), ..ov[i] })
                    &&& ov[i].tail is Some ==> nv == ov
                })
                &&& no_bucket(ov, key.database@, key.role@) ==> nv == ov
            }),
    {
        let ghost tv = tail_view(tail);
        match self.index_of(key) {
            Some(i) => {
                let ghost mid = *self;
                assert(mid.bucket_views()[i as int].total == mid.bucket_views()[i as int].idle.len() + mid.bucket_views()[i as int].in_use);
                let mut b = self.buckets.remove(i);
                if b.tail.is_none() {
                    b.tail = Some(tail);
                }
                self.buckets.insert(i, b);
                proof {
                    assert(self.buckets@ =~= mid.buckets@.update(i as int, self.buckets@[i as int]));
                    self.lemma_wf_update(&mid, i as int);
                    if mid.bucket_views()[i as int].tail is Some {
                        assert(self.bucket_views() =~= mid.bucket_views());
                    }
                }
            },
            None => {},
        }
    }

    /// Gives a checked-out place back (after a failed open, a lost session, or a failed
    /// reset): in the key's bucket the total and the checked-out count fall by one.
    pub fn discard(&mut self, key: &PoolKey)
        requires
            old(self).wf(),
        ensures
            final(self).wf(),
            final(self).size() == old(self).size(),
            ({
                let ov = old(self).bucket_views();
                let nv = final(self).bucket_views();
                &&& (forall|i: int| first_bucket(ov, key.database@, key.role@, i) ==> {
                    &&& ov[i].in_use > 0 ==> nv == ov.update(i,
                        BucketView { total: (ov[i].total - 1) as nat, in_use: (ov[i].in_use - 1) as nat, ..ov[i] })
                    &&& ov[i].in_use == 0 ==> nv == ov
                })
                &&& no_bucket(ov, key.database@, key.role@) ==> nv == ov
            }),
    {
        match self.index_of(key) {
            Some(i) => {
                if self.buckets[i].in_use == 0 {
                    return;
                }
                let ghost mid = *self;
                assert(mid.bucket_views()[i as int].total == mid.bucket_views()[i as int].idle.len() + mid.bucket_views()[i as int].in_use);
                let mut b = self.buckets.remove(i);
                b.in_use = b.in_use - 1;
                b.total = b.total - 1;
                self.buckets.insert(i, b);
                proof {
                    assert(self.buckets@ =~= mid.buckets@.update(i as int, self.buckets@[i as int]));
                    self.lemma_wf_update(&mid, i as int);
                }
            },
            None => {},
        }
    }

    /// Returns a reset session to the key's bucket at time `now_ms`, as its newest idle
    /// session. Refused (and the session dropped) when the bucket has no checked-out place.
    pub fn checkin(&mut self, key: &PoolKey, session: S, now_ms: u64) -> (r: bool)
        requires
            old(self).wf(),
        ensures
            final(self).wf(),
            final(self).size() == old(self).size(),
            ({
                let ov = old(self).bucket_views();
                let nv = final(self).bucket_views();
                &&& (forall|i: int| first_bucket(ov, key.database@, key.role@, i) ==> {
                    &&& ov[i].in_use > 0 ==> r && nv == ov.update(i, BucketView {
                        idle: ov[i].idle.push((session, now_ms)), in_use: (ov[i].in_use - 1) as nat, ..ov[i] })
                    &&& ov[i].in_use == 0 ==> !r && nv == ov
                })
                &&& no_bucket(ov, key.database@, key.role@) ==> !r && nv == ov
            }),
    {
        match self.index_of(key) {
            Some(i) => {
                if self.buckets[i].in_use == 0 {
                    return false;
                }
                let ghost mid = *self;
                assert(mid.bucket_views()[i as int].total == mid.bucket_views()[i as int].idle.len() + mid.bucket_views()[i as int].in_use);
                let mut b = self.buckets.remove(i);
                let ghost bi = b.idle@;
                b.in_use = b.in_use - 1;
                b.idle.push(IdleSession { session, last_used: now_ms });
                self.buckets.insert(i, b);
                proof {
                    assert(self.buckets@ =~= mid.buckets@.update(i as int, self.buckets@[i as int]));
                    assert(idle_view(self.buckets@[i as int].idle@) =~= idle_view(bi).push((session, now_ms)));
                    self.lemma_wf_update(&mid, i as int);
                }
                true
            },
            None => false,
        }
    }

    /// Hands a session back after its reset (`ROLLBACK; DISCARD ALL;`): a session whose reset
    /// reached ReadyForQuery without error becomes the newest idle session of its bucket; any
    /// other is dropped and its place given back.
    pub fn return_session(&mut self, key: &PoolKey, session: S, reset_ok: bool, now_ms: u64) -> (r: bool)
        requires
            old(self).wf(),
        ensures
            final(self).wf(),
            final(self).size() == old(self).size(),
            ({
                let ov = old(self).bucket_views();
                let nv = final(self).bucket_views();
                &&& (forall|i: int| first_bucket(ov, key.database@, key.role@, i) && ov[i].in_use > 0 ==> {
                    &&& reset_ok ==> r && nv == ov.update(i, BucketView {
                        idle: ov[i].idle.push((session, now_ms)), in_use: (ov[i].in_use - 1) as nat, ..ov[i] })
                    &&& !reset_ok ==> !r && nv == ov.update(i,
                        BucketView { total: (ov[i].total - 1) as nat, in_use: (ov[i].in_use - 1) as nat, ..ov[i] })
                })
                &&& (forall|i: int| first_bucket(ov, key.database@, key.role@, i) && ov[i].in_use == 0 ==> !r && nv == ov)
                &&& no_bucket(ov, key.database@, key.role@) ==> !r && nv == ov
            }),
    {
        if reset_ok {
            self.checkin(key, session, now_ms)
        } else {
            self.discard(key);
            false
        }
    }

    /// Drops every idle session unused for `idle_timeout_ms` or more at `now_ms` (the total of
    /// its bucket falls by one for each), and every bucket left with no session. Returns how
    /// many sessions were dropped.
    pub fn reap(&mut self, now_ms: u64, idle_timeout_ms: u64) -> (r: usize)
        requires
            old(self).wf(),
        ensures
            final(self).wf(),
            final(self).size() == old(self).size(),
            final(self).bucket_views() == reaped_buckets(old(self).bucket_views(), now_ms, idle_timeout_ms),
            r == reaped_count(old(self).bucket_views(), now_ms, idle_timeout_ms)
                || reaped_count(old(self).bucket_views(), now_ms, idle_timeout_ms) > usize::MAX,
    {
        let ghost ov = self.bucket_views();
        let ghost n = ov.len();
        let mut rest: Vec<PoolBucket<S>> = Vec::new();
        std::mem::swap(&mut rest, &mut self.buckets);
        let ghost orig = rest@;
        assert(ov =~= orig.map_values(|b: PoolBucket<S>| bview(b)));
        let mut out: Vec<PoolBucket<S>> = Vec::new();
        let mut reaped: usize = 0;
        let mut done: usize = 0;
        let total_buckets = rest.len();
        while rest.len() > 0
            invariant
                self.pool_size == old(self).pool_size,
                n == total_buckets,
                n == orig.len(),
                ov == orig.map_values(|b: PoolBucket<S>| bview(b)),
                old(self).wf(),
                old(self).bucket_views() == ov,
                done + rest@.len() == n,
                rest@ == orig.subrange(done as int, n as int),
                out@.map_values(|b: PoolBucket<S>| bview(b)) == reaped_buckets(ov.subrange(0, done as int), now_ms, idle_timeout_ms),
                reaped == reaped_count(ov.subrange(0, done as int), now_ms, idle_timeout_ms)
                    || reaped_count(ov.subrange(0, done as int), now_ms, idle_timeout_ms) > usize::MAX,
                forall|q: int| 0 <= q < out@.len() ==> {
                    &&& (#[trigger] out@[q]).total == out@[q].idle@.len() + out@[q].in_use
                    &&& out@[q].total <= self.pool_size
                },
            decreases rest@.len(),
        {
            let mut b = rest.remove(0);
            let ghost bv = ov[done as int];
            assert(bview(b) == bv);
            assert(bv.total == bv.idle.len() + bv.in_use && bv.total <= old(self).size());
            let mut idle = Vec::new();
            std::mem::swap(&mut idle, &mut b.idle);
            let ghost oi = idle_view(idle@);
            let m = idle.len();
            let mut fresh: Vec<IdleSession<S>> = Vec::new();
            let mut k: usize = 0;
            while idle.len() > 0
                invariant
                    k + idle@.len() == m,
                    m == oi.len(),
                    idle_view(idle@) == oi.subrange(k as int, m as int),
                    idle_view(fresh@) == fresh_idle(oi.subrange(0, k as int), now_ms, idle_timeout_ms),
                decreases idle@.len(),
            {
                let ghost before_idle = idle@;
                let e = idle.remove(0);
                let ghost ev = (e.session, e.last_used);
                assert(idle_view(before_idle)[0] == ev);
                assert(idle_view(before_idle)[0] == oi.subrange(k as int, m as int)[0]);
                assert(ev == oi[k as int]);
                assert(idle_view(idle@) =~= idle_view(before_idle).drop_first());
                assert(oi.subrange(0, k + 1).drop_last() =~= oi.subrange(0, k as int));
                let ghost before = idle_view(fresh@);
                if !(now_ms >= e.last_used && now_ms - e.last_used >= idle_timeout_ms) {
                    fresh.push(e);
                    assert(idle_view(fresh@) =~= before.push(ev));
                } else {
                    assert(before =~= before + Seq::<(S, u64)>::empty());
                }
                assert(idle_view(idle@) =~= oi.subrange(k + 1, m as int));
                k = k + 1;
            }
            assert(oi.subrange(0, m as int) =~= oi);
            proof { lemma_fresh_idle_len(oi, now_ms, idle_timeout_ms); }
            let dropped = m - fresh.len();
            b.idle = fresh;
            b.total = b.total - dropped as u32;
            let ghost nb = bview(b);
            assert(nb == reaped_bucket(bv, now_ms, idle_timeout_ms));
            assert(ov.subrange(0, done + 1).drop_last() =~= ov.subrange(0, done as int));
            reaped = reaped.saturating_add(dropped);
            let ghost before = out@.map_values(|b: PoolBucket<S>| bview(b));
            if b.total > 0 {
                out.push(b);
                assert(out@.map_values(|b: PoolBucket<S>| bview(b)) =~= before.push(nb));
            } else {
                assert(before =~= before + Seq::<BucketView<S>>::empty());
            }
            done = done + 1;
            assert(rest@ =~= orig.subrange(done as int, n as int));
        }
        assert(ov.subrange(0, n as int) =~= ov);
        self.buckets = out;
        proof {
            assert forall|q: int| 0 <= q < self.bucket_views().len() implies {
                &&& (#[trigger] self.bucket_views()[q]).total == self.bucket_views()[q].idle.len() + self.bucket_views()[q].in_use
                &&& self.bucket_views()[q].total <= self.size()
            } by {
                let _ = self.buckets@[q];
            }
        }
        reaped
    }

    /// The handshake tail of the key's bucket, if one was captured.
    pub fn tail_of(&self, key: &PoolKey) -> (r: Option<&HandshakeTail>)
        ensures
            r matches Some(t) ==> exists|i: int| first_bucket(self.bucket_views(), key.database@, key.role@, i)
                && self.bucket_views()[i].tail == Some(tail_view(*t)),
            r is None ==> no_bucket(self.bucket_views(), key.database@, key.role@)
                || exists|i: int| first_bucket(self.bucket_views(), key.database@, key.role@, i)
                    && self.bucket_views()[i].tail is None,
    {
        match self.index_of(key) {
            Some(i) => match &self.buckets[i].tail {
                Some(t) => {
                    assert(self.bucket_views()[i as int].tail == Some(tail_view(*t)));
                    Some(t)
                },
                None => {
                    assert(self.bucket_views()[i as int].tail is None);
                    None
                },
            },
            None => None,
        }
    }

    /// `(database, role, total, idle)` of every bucket.
    pub fn snapshot(&self) -> (r: Vec<(String, String, u32, usize)>)
        ensures
            r@.len() == self.bucket_views().len(),
            forall|i: int| 0 <= i < r@.len() ==> {
                &&& (#[trigger] r@[i]).0@ == self.bucket_views()[i].database
                &&& r@[i].1@ == self.bucket_views()[i].role
                &&& r@[i].2 == self.bucket_views()[i].total
                &&& r@[i].3 == self.bucket_views()[i].idle.len()
            },
    {
        let mut out: Vec<(String, String, u32, usize)> = Vec::new();
        let mut i: usize = 0;
        while i < self.buckets.len()
            invariant
                i <= self.buckets@.len(),
                out@.len() == i,
                forall|q: int| 0 <= q < i ==> {
                    &&& (#[trigger] out@[q]).0@ == self.bucket_views()[q].database
                    &&& out@[q].1@ == self.bucket_views()[q].role
                    &&& out@[q].2 == self.bucket_views()[q].total
                    &&& out@[q].3 == self.bucket_views()[q].idle.len()
                },
            decreases self.buckets@.len() - i,
        {
            let b = &self.buckets[i];
            out.push((b.database.clone(), b.role.clone(), b.total, b.idle.len()));
            i += 1;
        }
        out
    }
}

/// Whatever checkouts, creations, check-ins, discards and reaps came before, a well-formed pool
/// (every operation keeps it so) has each bucket within capacity, with its total equal to its
/// idle sessions plus its checked-out ones.
pub proof fn lemma_bucket_accounting<S>(pool: &PoolState<S>, i: int)
    requires
        pool.wf(),
        0 <= i < pool.bucket_views().len(),
    ensures
        pool.bucket_views()[i].total <= pool.size(),
        pool.bucket_views()[i].idle.len() + pool.bucket_views()[i].in_use == pool.bucket_views()[i].total,
{
}

} // verus!
