//! Resolver definitions, their dependency order, parameter substitution and the
//! row parsing that feeds their results back into the session context.

use vstd::prelude::*;
use std::hash::BuildHasher;
use crate::text::{
    opt_string_view,
    same_text, chars_of, string_of, replaced, replace_all, decimal, decimal_chars, TextMap,
    set_entry,
};
use crate::quote::{enclosed, escape_set_value};
use crate::wire::{
    be_u32_at, be_u16_at, nul_from, lemma_nul_from_bounds, bytes_text, read_u32_be, read_u16_be,
    copy_range, find_nul, text_of_bytes,
};

verus! {

/// One `[[resolver]]` block as read from the resolver file.
pub struct ResolverToml {
    pub name: String,
    pub query: String,
    pub params: Vec<String>,
    /// `(session_var, column_name)` pairs.
    pub inject: Vec<(String, String)>,
    pub required: bool,
    pub depends_on: Vec<String>,
    /// Seconds; 0 means no caching.
    pub cache_ttl: u64,
}

/// The resolver file: its blocks, in file order.
pub struct ResolverFile {
    pub resolver: Vec<ResolverToml>,
}

/// A validated resolver definition.
pub struct ResolverDef {
    pub name: String,
    pub query: String,
    pub params: Vec<String>,
    /// `(session_var, column_name)` pairs, in order.
    pub inject: Vec<(String, String)>,
    pub required: bool,
    pub depends_on: Vec<String>,
    /// Seconds; 0 means no caching.
    pub cache_ttl: u64,
}

/// The definitions of a resolver file, in file order, each block's fields moved as they are.
pub fn resolver_defs(file: ResolverFile) -> (r: Vec<ResolverDef>)
    ensures
        r@.len() == file.resolver@.len(),
        forall|i: int| 0 <= i < r@.len() ==> {
            &&& (#[trigger] r@[i]).name == file.resolver@[i].name
            &&& r@[i].query == file.resolver@[i].query
            &&& r@[i].params == file.resolver@[i].params
            &&& r@[i].inject == file.resolver@[i].inject
            &&& r@[i].required == file.resolver@[i].required
            &&& r@[i].depends_on == file.resolver@[i].depends_on
            &&& r@[i].cache_ttl == file.resolver@[i].cache_ttl
        },
{
    let mut blocks = file.resolver;
    let ghost orig = blocks@;
    let mut rev: Vec<ResolverDef> = Vec::new();
    while blocks.len() > 0
        invariant
            blocks@ == orig.subrange(0, blocks@.len() as int),
            rev@.len() + blocks@.len() == orig.len(),
            forall|q: int| 0 <= q < rev@.len() ==> {
                let b = orig[orig.len() - 1 - q];
                &&& (#[trigger] rev@[q]).name == b.name
                &&& rev@[q].query == b.query
                &&& rev@[q].params == b.params
                &&& rev@[q].inject == b.inject
                &&& rev@[q].required == b.required
                &&& rev@[q].depends_on == b.depends_on
                &&& rev@[q].cache_ttl == b.cache_ttl
            },
        decreases blocks@.len(),
    {
        let b = blocks.pop().unwrap();
        assert(blocks@ =~= orig.subrange(0, blocks@.len() as int));
        rev.push(ResolverDef {
            name: b.name,
            query: b.query,
            params: b.params,
            inject: b.inject,
            required: b.required,
            depends_on: b.depends_on,
            cache_ttl: b.cache_ttl,
        });
    }
    let mut out: Vec<ResolverDef> = Vec::new();
    while rev.len() > 0
        invariant
            out@.len() + rev@.len() == orig.len(),
            forall|q: int| 0 <= q < rev@.len() ==> {
                let b = orig[orig.len() - 1 - q];
                &&& (#[trigger] rev@[q]).name == b.name
                &&& rev@[q].query == b.query
                &&& rev@[q].params == b.params
                &&& rev@[q].inject == b.inject
                &&& rev@[q].required == b.required
                &&& rev@[q].depends_on == b.depends_on
                &&& rev@[q].cache_ttl == b.cache_ttl
            },
            forall|q: int| 0 <= q < out@.len() ==> {
                let b = orig[q];
                &&& (#[trigger] out@[q]).name == b.name
                &&& out@[q].query == b.query
                &&& out@[q].params == b.params
                &&& out@[q].inject == b.inject
                &&& out@[q].required == b.required
                &&& out@[q].depends_on == b.depends_on
                &&& out@[q].cache_ttl == b.cache_ttl
            },
        decreases rev@.len(),
    {
        let d = rev.pop().unwrap();
        out.push(d);
    }
    out
}

/// The `k`-th dependency name of `d`.
pub open spec fn dep_name(d: ResolverDef, k: int) -> Seq<char> {
    d.depends_on@[k]@
}

/// Some definition among `defs` at the positions `at` carries the name `n`.
pub open spec fn named_among(defs: Seq<ResolverDef>, at: Seq<int>, n: Seq<char>) -> bool {
    exists|j: int| 0 <= j < at.len() && (#[trigger] defs[at[j]]).name@ == n
}

/// Every dependency of `defs[i]` is named by a definition at the positions `at`.
pub open spec fn deps_among(defs: Seq<ResolverDef>, i: int, at: Seq<int>) -> bool {
    forall|k: int| 0 <= k < defs[i].depends_on@.len() ==> named_among(defs, at, #[trigger] dep_name(defs[i], k))
}

/// `order` lists positions of `defs`, each once, and each after the definitions that
/// carry the names of its dependencies.
pub open spec fn is_dependency_order(defs: Seq<ResolverDef>, order: Seq<int>) -> bool {
    &&& forall|j: int| 0 <= j < order.len() ==> 0 <= #[trigger] order[j] < defs.len()
    &&& forall|j1: int, j2: int| 0 <= j1 < j2 < order.len() ==> order[j1] != order[j2]
    &&& forall|j: int| 0 <= j < order.len() ==> deps_among(defs, #[trigger] order[j], order.subrange(0, j))
}

/// `order` holds every position of `defs`.
pub open spec fn covers(n: int, order: Seq<int>) -> bool {
    forall|i: int| 0 <= i < n ==> #[trigger] order.contains(i)
}

/// A sequence of definitions in which each one comes after every definition that
/// carries the name of one of its dependencies.
pub open spec fn dependencies_first(defs: Seq<ResolverDef>) -> bool {
    forall|i: int, k: int| 0 <= i < defs.len() && 0 <= k < defs[i].depends_on@.len() ==>
        #[trigger] dep_placed_before(defs, i, k)
}

/// Some definition before position `i` carries the name of the `k`-th dependency of `defs[i]`.
pub open spec fn dep_placed_before(defs: Seq<ResolverDef>, i: int, k: int) -> bool {
    exists|j: int| 0 <= j < i && (#[trigger] defs[j]).name@ == dep_name(defs[i], k)
}

/// `s` is a non-empty set of positions of `defs` none of which can be placed: each
/// member has a dependency that no definition outside `s` carries (a dependency cycle,
/// or a name that no definition carries).
pub open spec fn blocked_set(defs: Seq<ResolverDef>, s: Set<int>) -> bool {
    &&& exists|i: int| s.contains(i)
    &&& forall|i: int| s.contains(i) ==> 0 <= i < defs.len()
    &&& forall|i: int| #[trigger] s.contains(i) ==> exists|k: int|
        0 <= k < defs[i].depends_on@.len() && only_within(defs, s, #[trigger] dep_name(defs[i], k))
}

/// Every definition that carries the name `n` is in `s`.
pub open spec fn only_within(defs: Seq<ResolverDef>, s: Set<int>, n: Seq<char>) -> bool {
    forall|j: int| 0 <= j < defs.len() && (#[trigger] defs[j]).name@ == n ==> s.contains(j)
}

/// A complete dependency order leaves no blocked set: no definition can lie in one.
pub proof fn lemma_order_excludes_blocked(defs: Seq<ResolverDef>, order: Seq<int>, s: Set<int>)
    requires
        is_dependency_order(defs, order),
        covers(defs.len() as int, order),
    ensures
        !blocked_set(defs, s),
{
    if blocked_set(defs, s) {
        assert forall|p: int| 0 <= p < order.len() implies !s.contains(#[trigger] order[p]) by {
            lemma_order_prefix_outside(defs, order, s, p);
        }
        let w = choose|i: int| s.contains(i);
        assert(order.contains(w));
        let p = choose|p: int| 0 <= p < order.len() && order[p] == w;
        assert(!s.contains(order[p]));
    }
}

proof fn lemma_order_prefix_outside(defs: Seq<ResolverDef>, order: Seq<int>, s: Set<int>, p: int)
    requires
        is_dependency_order(defs, order),
        blocked_set(defs, s),
        0 <= p < order.len(),
    ensures
        !s.contains(order[p]),
    decreases p,
{
    if s.contains(order[p]) {
        let i = order[p];
        let k = choose|k: int| 0 <= k < defs[i].depends_on@.len() && only_within(defs, s, #[trigger] dep_name(defs[i], k));
        assert(deps_among(defs, order[p], order.subrange(0, p)));
        assert(named_among(defs, order.subrange(0, p), dep_name(defs[i], k)));
        let q = choose|q: int| 0 <= q < p && (#[trigger] defs[order.subrange(0, p)[q]]).name@ == dep_name(defs[i], k);
        assert(order.subrange(0, p)[q] == order[q]);
        lemma_order_prefix_outside(defs, order, s, q);
        assert(s.contains(order[q]));
    }
}

/// The position after `i` around the cycle `c`.
pub open spec fn cycle_next(c: Seq<int>, i: int) -> int {
    if i + 1 < c.len() { c[i + 1] } else { c[0] }
}

/// `c` lists positions of `defs` around a dependency cycle: each depends on the next, and
/// the last on the first.
pub open spec fn is_cycle(defs: Seq<ResolverDef>, c: Seq<int>) -> bool {
    &&& c.len() > 0
    &&& forall|i: int| 0 <= i < c.len() ==> 0 <= #[trigger] c[i] < defs.len()
    &&& forall|i: int| 0 <= i < c.len() ==> depends_on_def(defs, #[trigger] c[i], cycle_next(c, i))
}

/// With distinct names, a dependency cycle is a set that no order can place: a resolver file
/// with a cycle is refused.
pub proof fn lemma_cycle_is_blocked(defs: Seq<ResolverDef>, c: Seq<int>)
    requires
        unique_names(defs),
        is_cycle(defs, c),
    ensures
        blocked_set(defs, Set::new(|x: int| c.contains(x))),
{
    let s = Set::new(|x: int| c.contains(x));
    assert(s.contains(c[0]));
    assert forall|x: int| #[trigger] s.contains(x) implies exists|k: int|
        0 <= k < defs[x].depends_on@.len() && only_within(defs, s, #[trigger] dep_name(defs[x], k)) by {
        let i = choose|i: int| 0 <= i < c.len() && c[i] == x;
        let next = cycle_next(c, i);
        assert(depends_on_def(defs, c[i], next));
        let k = choose|k: int| 0 <= k < defs[c[i]].depends_on@.len() && #[trigger] dep_name(defs[c[i]], k) == defs[next].name@;
        assert(c.contains(next));
        assert forall|j: int| 0 <= j < defs.len() && (#[trigger] defs[j]).name@ == dep_name(defs[x], k)
            implies s.contains(j) by {
            if j != next {
                if j < next {
                    assert(defs[j].name@ != defs[next].name@);
                } else {
                    assert(defs[next].name@ != defs[j].name@);
                }
            }
        }
    }
}

/// `defs[x]` depends on `defs[j]`: some dependency of `x` names `j`.
pub open spec fn depends_on_def(defs: Seq<ResolverDef>, x: int, j: int) -> bool {
    exists|k: int| 0 <= k < defs[x].depends_on@.len() && #[trigger] dep_name(defs[x], k) == defs[j].name@
}

spec fn next_in(defs: Seq<ResolverDef>, s: Set<int>, x: int) -> int {
    choose|j: int| s.contains(j) && depends_on_def(defs, x, j)
}

/// Starting at `x`, `m` steps along dependencies that stay in `s`.
spec fn walk(defs: Seq<ResolverDef>, s: Set<int>, x: int, m: nat) -> Seq<int>
    decreases m,
{
    if m == 0 { seq![x] } else { walk(defs, s, x, (m - 1) as nat).push(next_in(defs, s, walk(defs, s, x, (m - 1) as nat).last())) }
}

proof fn lemma_walk(defs: Seq<ResolverDef>, s: Set<int>, x: int, m: nat)
    requires
        s.contains(x),
        forall|y: int| #[trigger] s.contains(y) ==> exists|j: int| s.contains(j) && depends_on_def(defs, y, j),
    ensures
        walk(defs, s, x, m).len() == m + 1,
        forall|i: int| 0 <= i <= m ==> s.contains(#[trigger] walk(defs, s, x, m)[i]),
        forall|i: int| 0 <= i < m ==> depends_on_def(defs, #[trigger] walk(defs, s, x, m)[i], walk(defs, s, x, m)[i + 1]),
    decreases m,
{
    if m > 0 {
        lemma_walk(defs, s, x, (m - 1) as nat);
        let w = walk(defs, s, x, (m - 1) as nat);
        let y = w.last();
        assert(s.contains(w[m - 1]));
        assert(exists|j: int| s.contains(j) && depends_on_def(defs, y, j));
        let z = next_in(defs, s, y);
        let w2 = walk(defs, s, x, m);
        assert(w2 == w.push(z));
        assert forall|i: int| 0 <= i < m implies depends_on_def(defs, #[trigger] w2[i], w2[i + 1]) by {
            if i < m - 1 {
                assert(w2[i] == w[i] && w2[i + 1] == w[i + 1]);
            }
        }
    }
}

proof fn lemma_blocked_successor(defs: Seq<ResolverDef>, s: Set<int>)
    requires
        dependencies_known(defs),
        blocked_set(defs, s),
    ensures
        forall|y: int| #[trigger] s.contains(y) ==> exists|j: int| s.contains(j) && depends_on_def(defs, y, j),
{
    assert forall|y: int| #[trigger] s.contains(y) implies exists|j: int| s.contains(j) && depends_on_def(defs, y, j) by {
        let k = choose|k: int| 0 <= k < defs[y].depends_on@.len() && only_within(defs, s, #[trigger] dep_name(defs[y], k));
        let nm = dep_name(defs[y], k);
        assert(only_within(defs, s, nm));
        assert(0 <= y < defs.len());
        assert(names_some(defs, nm));
        let j = choose|j: int| 0 <= j < defs.len() && (#[trigger] defs[j]).name@ == nm;
        assert(defs[j].name@ == nm);
        assert(s.contains(j));
        assert(depends_on_def(defs, y, j));
    }
}

proof fn lemma_pigeonhole(w: Seq<int>, n: int)
    requires
        0 <= n,
        w.len() == n + 1,
        forall|i: int| 0 <= i < w.len() ==> 0 <= #[trigger] w[i] < n,
    ensures
        exists|a: int, b: int| 0 <= a < b < w.len() && w[a] == w[b],
{
    if w.no_duplicates() {
        w.unique_seq_to_set();
        vstd::set_lib::lemma_int_range(0, n);
        assert forall|v: int| w.to_set().contains(v) implies vstd::set_lib::set_int_range(0, n).contains(v) by {
            let i = choose|i: int| 0 <= i < w.len() && w[i] == v;
        }
        vstd::set_lib::lemma_len_subset(w.to_set(), vstd::set_lib::set_int_range(0, n));
    }
    let (a, b) = choose|a: int, b: int| 0 <= a < w.len() && 0 <= b < w.len() && a != b && w[a] == w[b];
    if b < a {
        assert(w[b] == w[a]);
    }
}

proof fn lemma_segment_cycle(defs: Seq<ResolverDef>, w: Seq<int>, lo: int, hi: int)
    requires
        0 <= lo < hi < w.len(),
        w[lo] == w[hi],
        forall|i: int| 0 <= i < w.len() ==> 0 <= #[trigger] w[i] < defs.len(),
        forall|i: int| 0 <= i < w.len() - 1 ==> depends_on_def(defs, #[trigger] w[i], w[i + 1]),
    ensures
        is_cycle(defs, w.subrange(lo, hi)),
{
    let c = w.subrange(lo, hi);
    assert forall|i: int| 0 <= i < c.len() implies 0 <= #[trigger] c[i] < defs.len() by {
        assert(c[i] == w[lo + i]);
    }
    assert forall|i: int| 0 <= i < c.len() implies depends_on_def(defs, #[trigger] c[i], cycle_next(c, i)) by {
        assert(c[i] == w[lo + i]);
        assert(depends_on_def(defs, w[lo + i], w[lo + i + 1]));
        assert(w[lo + i + 1] == cycle_next(c, i));
    }
}

/// With every dependency naming some resolver, a set that no order can place holds a
/// dependency cycle.
#[verifier::rlimit(50)]
pub proof fn lemma_blocked_has_cycle(defs: Seq<ResolverDef>, s: Set<int>)
    requires
        dependencies_known(defs),
        blocked_set(defs, s),
    ensures
        exists|c: Seq<int>| is_cycle(defs, c),
{
    let n = defs.len();
    lemma_blocked_successor(defs, s);
    let x = choose|x: int| s.contains(x);
    lemma_walk(defs, s, x, n as nat);
    let w = walk(defs, s, x, n as nat);
    assert forall|i: int| 0 <= i < w.len() implies 0 <= #[trigger] w[i] < n by {
        assert(s.contains(w[i]));
    }
    assert forall|i: int| 0 <= i < w.len() - 1 implies depends_on_def(defs, #[trigger] w[i], w[i + 1]) by {}
    lemma_pigeonhole(w, n as int);
    let (a, b) = choose|a: int, b: int| 0 <= a < b < w.len() && w[a] == w[b];
    lemma_segment_cycle(defs, w, a, b);
}

/// When names are distinct and every dependency names a resolver, the resolvers can be put
/// in dependency order exactly when their dependencies hold no cycle (a resolver depending on
/// itself included): `topological_sort` fails exactly on a cycle.
pub proof fn lemma_blocked_iff_cycle(defs: Seq<ResolverDef>)
    requires
        unique_names(defs),
        dependencies_known(defs),
    ensures
        (exists|s: Set<int>| blocked_set(defs, s)) <==> (exists|c: Seq<int>| is_cycle(defs, c)),
{
    if exists|s: Set<int>| blocked_set(defs, s) {
        let s = choose|s: Set<int>| blocked_set(defs, s);
        lemma_blocked_has_cycle(defs, s);
    }
    if exists|c: Seq<int>| is_cycle(defs, c) {
        let c = choose|c: Seq<int>| is_cycle(defs, c);
        lemma_cycle_is_blocked(defs, c);
    }
}

spec fn count_unplaced(used: Seq<bool>) -> nat
    decreases used.len(),
{
    if used.len() == 0 {
        0
    } else {
        count_unplaced(used.drop_last()) + if used.last() { 0nat } else { 1nat }
    }
}

proof fn lemma_count_unplaced_update(used: Seq<bool>, i: int)
    requires
        0 <= i < used.len(),
        !used[i],
    ensures
        count_unplaced(used.update(i, true)) + 1 == count_unplaced(used),
    decreases used.len(),
{
    if i < used.len() - 1 {
        lemma_count_unplaced_update(used.drop_last(), i);
        assert(used.update(i, true).drop_last() =~= used.drop_last().update(i, true));
    } else {
        assert(used.update(i, true).drop_last() =~= used.drop_last());
    }
}

proof fn lemma_count_unplaced_zero(used: Seq<bool>)
    ensures
        count_unplaced(used) == 0 <==> forall|i: int| 0 <= i < used.len() ==> used[i],
    decreases used.len(),
{
    if used.len() > 0 {
        lemma_count_unplaced_zero(used.drop_last());
        if count_unplaced(used) == 0 {
            assert forall|i: int| 0 <= i < used.len() implies used[i] by {
                if i < used.len() - 1 {
                    assert(used.drop_last()[i] == used[i]);
                }
            }
        }
        if forall|i: int| 0 <= i < used.len() ==> used[i] {
            assert forall|i: int| 0 <= i < used.drop_last().len() implies used.drop_last()[i] by {
                assert(used[i]);
            }
        }
    }
}

proof fn lemma_count_all_unplaced(used: Seq<bool>)
    requires
        forall|i: int| 0 <= i < used.len() ==> !used[i],
    ensures
        count_unplaced(used) == used.len(),
    decreases used.len(),
{
    if used.len() > 0 {
        lemma_count_all_unplaced(used.drop_last());
    }
}

/// Whether some definition at the positions `placed` carries the name `n`.
fn placed_has_name(defs: &[ResolverDef], placed: &Vec<usize>, n: &str) -> (r: bool)
    requires
        forall|j: int| 0 <= j < placed@.len() ==> #[trigger] placed@[j] < defs@.len(),
    ensures
        r == named_among(defs@, placed@.map_values(|p: usize| p as int), n@),
{
    let ghost at = placed@.map_values(|p: usize| p as int);
    let mut j: usize = 0;
    while j < placed.len()
        invariant
            j <= placed@.len(),
            at == placed@.map_values(|p: usize| p as int),
            forall|q: int| 0 <= q < placed@.len() ==> #[trigger] placed@[q] < defs@.len(),
            forall|q: int| 0 <= q < j ==> (#[trigger] defs@[at[q]]).name@ != n@,
        decreases placed@.len() - j,
    {
        if same_text(defs[placed[j]].name.as_str(), n) {
            assert(defs@[at[j as int]].name@ == n@);
            return true;
        }
        j += 1;
    }
    false
}

/// Whether every dependency of `defs[i]` is carried by a definition at the positions `placed`.
fn deps_placed(defs: &[ResolverDef], i: usize, placed: &Vec<usize>) -> (r: bool)
    requires
        i < defs@.len(),
        forall|j: int| 0 <= j < placed@.len() ==> #[trigger] placed@[j] < defs@.len(),
    ensures
        r == deps_among(defs@, i as int, placed@.map_values(|p: usize| p as int)),
{
    let ghost at = placed@.map_values(|p: usize| p as int);
    let d = &defs[i];
    let mut k: usize = 0;
    while k < d.depends_on.len()
        invariant
            k <= d.depends_on@.len(),
            *d == defs@[i as int],
            at == placed@.map_values(|p: usize| p as int),
            forall|q: int| 0 <= q < placed@.len() ==> #[trigger] placed@[q] < defs@.len(),
            forall|q: int| 0 <= q < k ==> named_among(defs@, at, #[trigger] dep_name(defs@[i as int], q)),
        decreases d.depends_on@.len() - k,
    {
        if !placed_has_name(defs, placed, d.depends_on[k].as_str()) {
            assert(!named_among(defs@, at, dep_name(defs@[i as int], k as int)));
            return false;
        }
        k += 1;
    }
    true
}

/// The positions of `defs` in dependency order: repeatedly the first definition not yet
/// placed whose dependencies are all placed. Fails when no such definition is left
/// while some are unplaced.
pub fn dependency_order(defs: &[ResolverDef]) -> (r: Result<Vec<usize>, String>)
    ensures
        r matches Ok(order) ==> is_dependency_order(defs@, order@.map_values(|p: usize| p as int))
            && covers(defs@.len() as int, order@.map_values(|p: usize| p as int)),
        r is Err <==> exists|s: Set<int>| blocked_set(defs@, s),
{
    let n = defs.len();
    let mut placed: Vec<usize> = Vec::new();
    let mut used: Vec<bool> = Vec::new();
    let mut z: usize = 0;
    while z < n
        invariant
            z <= n,
            n == defs@.len(),
            used@.len() == z,
            forall|q: int| 0 <= q < z ==> !used@[q],
        decreases n - z,
    {
        used.push(false);
        z += 1;
    }
    let mut remaining: usize = n;
    proof { lemma_count_all_unplaced(used@); }
    while remaining > 0
        invariant
            n == defs@.len(),
            used@.len() == n,
            remaining == count_unplaced(used@),
            forall|j: int| 0 <= j < placed@.len() ==> #[trigger] placed@[j] < n,
            is_dependency_order(defs@, placed@.map_values(|p: usize| p as int)),
            forall|i: int| 0 <= i < n ==> (used@[i] <==> exists|j: int| 0 <= j < placed@.len() && placed@[j] == i),
        decreases remaining,
    {
        let ghost at = placed@.map_values(|p: usize| p as int);
        let mut found: Option<usize> = None;
        let mut i: usize = 0;
        while i < n
            invariant
                n == defs@.len(),
                used@.len() == n,
                i <= n,
                at == placed@.map_values(|p: usize| p as int),
                forall|j: int| 0 <= j < placed@.len() ==> #[trigger] placed@[j] < n,
                found matches Some(c) ==> c < n && !used@[c as int] && deps_among(defs@, c as int, at),
                found is None ==> forall|q: int| 0 <= q < i && !used@[q] ==> !deps_among(defs@, q, at),
            decreases n - i,
        {
            if found.is_none() && !used[i] && deps_placed(defs, i, &placed) {
                found = Some(i);
            }
            i += 1;
        }
        match found {
            Some(c) => {
                proof { lemma_count_unplaced_update(used@, c as int); }
                let ghost old_placed = placed@;
                let ghost old_used = used@;
                used.set(c, true);
                placed.push(c);
                let ghost at2 = placed@.map_values(|p: usize| p as int);
                assert(at2 =~= at.push(c as int));
                assert(at2.subrange(0, at.len() as int) =~= at);
                assert forall|j: int| 0 <= j < at2.len() implies deps_among(defs@, #[trigger] at2[j], at2.subrange(0, j)) by {
                    if j < at.len() {
                        assert(at2.subrange(0, j) =~= at.subrange(0, j));
                        assert(at2[j] == at[j]);
                    }
                }
                assert forall|q: int| 0 <= q < n implies (used@[q] <==> exists|j: int| 0 <= j < placed@.len() && placed@[j] == q) by {
                    if q == c {
                        assert(placed@[placed@.len() - 1] == q);
                    } else {
                        if old_used[q] {
                            let j = choose|j: int| 0 <= j < old_placed.len() && old_placed[j] == q;
                            assert(placed@[j] == q);
                        }
                        if exists|j: int| 0 <= j < placed@.len() && placed@[j] == q {
                            let j = choose|j: int| 0 <= j < placed@.len() && placed@[j] == q;
                            assert(j < old_placed.len());
                            assert(old_placed[j] == q);
                        }
                    }
                }
                remaining = remaining - 1;
            },
            None => {
                proof {
                    lemma_count_unplaced_zero(used@);
                    let s = Set::new(|q: int| 0 <= q < n && !used@[q]);
                    let w = choose|q: int| 0 <= q < n && !used@[q];
                    assert(s.contains(w));
                    assert forall|q: int| #[trigger] s.contains(q) implies exists|k: int|
                        0 <= k < defs@[q].depends_on@.len() && only_within(defs@, s, #[trigger] dep_name(defs@[q], k)) by {
                        assert(!deps_among(defs@, q, at));
                        let k = choose|k: int| 0 <= k < defs@[q].depends_on@.len()
                            && !named_among(defs@, at, #[trigger] dep_name(defs@[q], k));
                        assert forall|j: int| 0 <= j < defs@.len() && (#[trigger] defs@[j]).name@ == dep_name(defs@[q], k)
                            implies s.contains(j) by {
                            if used@[j] {
                                let p = choose|p: int| 0 <= p < placed@.len() && placed@[p] == j;
                                assert(at[p] == j);
                                assert(named_among(defs@, at, dep_name(defs@[q], k)));
                            }
                        }
                        assert(only_within(defs@, s, dep_name(defs@[q], k)));
                    }
                    assert(blocked_set(defs@, s));
                }
                return Err(String::from_str("cycle detected in resolver dependencies"));
            },
        }
    }
    proof {
        lemma_count_unplaced_zero(used@);
        let at = placed@.map_values(|p: usize| p as int);
        assert forall|i: int| 0 <= i < n implies #[trigger] at.contains(i) by {
            assert(used@[i]);
            let j = choose|j: int| 0 <= j < placed@.len() && placed@[j] == i;
            assert(at[j] == i);
        }
        if exists|s: Set<int>| blocked_set(defs@, s) {
            let s = choose|s: Set<int>| blocked_set(defs@, s);
            lemma_order_excludes_blocked(defs@, at, s);
        }
    }
    Ok(placed)
}

/// Puts the definitions in dependency order (see `dependency_order`), moving them.
pub fn topological_sort(defs: Vec<ResolverDef>) -> (r: Result<Vec<ResolverDef>, String>)
    ensures
        r is Err <==> exists|s: Set<int>| blocked_set(defs@, s),
        r matches Ok(sorted) ==> {
            &&& dependencies_first(sorted@)
            &&& exists|order: Seq<int>| {
                &&& is_dependency_order(defs@, order)
                &&& covers(defs@.len() as int, order)
                &&& order.len() == sorted@.len()
                &&& forall|i: int| 0 <= i < order.len() ==> sorted@[i] == defs@[#[trigger] order[i]]
            }
        },
{
    let order = match dependency_order(defs.as_slice()) {
        Ok(o) => o,
        Err(e) => return Err(e),
    };
    let ghost orig = defs@;
    let ghost at = order@.map_values(|p: usize| p as int);
    let n = defs.len();
    let mut slots: Vec<Option<ResolverDef>> = Vec::new();
    let mut z: usize = 0;
    while z < n
        invariant
            z <= n,
            slots@.len() == z,
            forall|q: int| 0 <= q < z ==> slots@[q] is None,
        decreases n - z,
    {
        slots.push(None);
        z += 1;
    }
    let mut rest = defs;
    while rest.len() > 0
        invariant
            slots@.len() == n,
            n == orig.len(),
            rest@.len() <= n,
            rest@ == orig.subrange(0, rest@.len() as int),
            forall|q: int| rest@.len() <= q < n ==> slots@[q] == Some(orig[q]),
        decreases rest@.len(),
    {
        let d = rest.pop().unwrap();
        let i = rest.len();
        slots.set(i, Some(d));
        assert(rest@ =~= orig.subrange(0, rest@.len() as int));
    }
    let mut out: Vec<ResolverDef> = Vec::new();
    let mut j: usize = 0;
    while j < order.len()
        invariant
            slots@.len() == n,
            n == orig.len(),
            at == order@.map_values(|p: usize| p as int),
            is_dependency_order(orig, at),
            j <= order@.len(),
            out@.len() == j,
            forall|q: int| 0 <= q < j ==> out@[q] == orig[#[trigger] at[q]],
            forall|q: int| j <= q < order@.len() ==> slots@[#[trigger] at[q]] == Some(orig[at[q]]),
        decreases order@.len() - j,
    {
        let mut taken: Option<ResolverDef> = None;
        let ghost before = slots@;
        assert(at[j as int] == order@[j as int] as int);
        assert(0 <= at[j as int] < n);
        slots.set_and_swap(order[j], &mut taken);
        assert forall|q: int| j + 1 <= q < order@.len() implies slots@[#[trigger] at[q]] == Some(orig[at[q]]) by {
            assert(at[q] != at[j as int]);
            assert(before[at[q]] == Some(orig[at[q]]));
        }
        if let Some(d) = taken {
            out.push(d);
        }
        j += 1;
    }
    proof {
        assert(is_dependency_order(orig, at) && covers(orig.len() as int, at) && at.len() == out@.len()
            && forall|i: int| 0 <= i < at.len() ==> out@[i] == orig[#[trigger] at[i]]);
        assert forall|i: int, k: int| 0 <= i < out@.len() && 0 <= k < out@[i].depends_on@.len() implies
            #[trigger] dep_placed_before(out@, i, k) by {
            assert(out@[i] == orig[at[i]]);
            assert(deps_among(orig, at[i], at.subrange(0, i)));
            assert(named_among(orig, at.subrange(0, i), dep_name(orig[at[i]], k)));
            let q = choose|q: int| 0 <= q < at.subrange(0, i).len()
                && (#[trigger] orig[at.subrange(0, i)[q]]).name@ == dep_name(orig[at[i]], k);
            assert(at.subrange(0, i)[q] == at[q]);
            assert(out@[q] == orig[at[q]]);
            assert(out@[q].name@ == dep_name(out@[i], k));
        }
        assert(dependencies_first(out@));
    }
    Ok(out)
}

// ─── Parameter substitution ─────────────────────────────────────────────────

/// The views of a list of optional texts.
pub open spec fn opt_texts(vs: Seq<Option<String>>) -> Seq<Option<Seq<char>>> {
    vs.map_values(|v: Option<String>| opt_string_view(v))
}

/// What stands in the SQL for a parameter value: a quoted literal, or `NULL`.
pub open spec fn param_sql(v: Option<Seq<char>>) -> Seq<char> {
    match v {
        Some(s) => enclosed(s, '\''),
        None => "NULL"@,
    }
}

/// The placeholder `$n`.
pub open spec fn placeholder(n: nat) -> Seq<char> {
    seq!['$'] + decimal(n)
}

/// `sql` with `$k`, then `$k-1`, ..., then `$1` replaced by the SQL of `vals[k-1]`, ..., `vals[0]`.
pub open spec fn substituted(sql: Seq<char>, vals: Seq<Option<Seq<char>>>, k: nat) -> Seq<char>
    decreases k,
{
    if k == 0 || k > vals.len() {
        sql
    } else {
        substituted(replaced(sql, placeholder(k), param_sql(vals[k - 1])), vals, (k - 1) as nat)
    }
}

/// Replaces `$1..$N` in `sql` by the quoted values (or `NULL`), from `$N` down to `$1`
/// so that `$10` is replaced before `$1` could touch it.
pub fn substitute_params(sql: &str, values: &[Option<String>]) -> (r: String)
    ensures
        r@ == substituted(sql@, opt_texts(values@), values@.len()),
{
    let ghost vals = opt_texts(values@);
    let mut result = chars_of(sql);
    let mut i: usize = values.len();
    while i > 0
        invariant
            i <= values@.len(),
            vals == opt_texts(values@),
            substituted(result@, vals, i as nat) == substituted(sql@, vals, values@.len()),
        decreases i,
    {
        let mut ph: Vec<char> = Vec::new();
        ph.push('$');
        let mut digits = decimal_chars(i as u64);
        ph.append(&mut digits);
        assert(ph@ =~= placeholder(i as nat));
        let rep = match &values[i - 1] {
            Some(v) => chars_of(escape_set_value(v.as_str()).as_str()),
            None => chars_of("NULL"),
        };
        assert(vals[i - 1] == opt_string_view(values@[i - 1]));
        result = replace_all(&result, &ph, &rep);
        i -= 1;
    }
    string_of(result.as_slice())
}

// ─── Cache key ──────────────────────────────────────────────────────────────

/// What the standard library's default hasher makes of an ordered list of optional texts.
pub uninterp spec fn input_hash(values: Seq<Option<Seq<char>>>) -> u64;

/// Relies on `BuildHasher::hash_one` with `BuildHasherDefault<DefaultHasher>`: a hash
/// fixed by the values alone (the default hasher built this way is not randomly seeded).
#[verifier::external_body]
fn hash_inputs(values: &[Option<String>]) -> (r: u64)
    ensures
        r == input_hash(opt_texts(values@)),
{
    std::hash::BuildHasherDefault::<std::collections::hash_map::DefaultHasher>::default().hash_one(values)
}

/// The cache key of a resolver run: its name and a hash of its ordered inputs.
pub fn make_cache_key(resolver_name: &str, input_values: &[Option<String>]) -> (r: (String, u64))
    ensures
        r.0@ == resolver_name@,
        r.1 == input_hash(opt_texts(input_values@)),
{
    (string_of(chars_of(resolver_name).as_slice()), hash_inputs(input_values))
}

// ─── Row parsing ────────────────────────────────────────────────────────────

/// Column names of a RowDescription payload from `off` on, at most `left` of them, after `acc`.
/// Each field is a NUL-terminated name followed by 18 bytes of descriptor.
pub open spec fn row_names_from(p: Seq<u8>, off: int, left: int, acc: Seq<Seq<char>>) -> Seq<Seq<char>>
    decreases p.len() - off,
{
    if left <= 0 || off < 0 || off >= p.len() {
        acc
    } else {
        let end = match nul_from(p, off) {
            Some(j) => j,
            None => p.len() as int,
        };
        let next = acc.push(bytes_text(p.subrange(off, end)));
        if off <= end && end + 19 < p.len() {
            row_names_from(p, end + 19, left - 1, next)
        } else {
            next
        }
    }
}

/// The field count of a row message: the first two bytes as a signed 16-bit value. A
/// negative count reads every field present, which the payload length bounds.
pub open spec fn field_count(p: Seq<u8>) -> int {
    let c = be_u16_at(p, 0);
    if c >= 32768 { p.len() as int } else { c }
}

/// The column names of a RowDescription payload.
pub open spec fn row_description_names(p: Seq<u8>) -> Seq<Seq<char>> {
    if p.len() < 2 {
        Seq::empty()
    } else {
        row_names_from(p, 2, field_count(p), Seq::empty())
    }
}

fn read_field_count(payload: &[u8]) -> (r: usize)
    requires
        payload@.len() >= 2,
    ensures
        r == field_count(payload@),
{
    let c = read_u16_be(payload, 0);
    if c >= 32768 {
        payload.len()
    } else {
        c as usize
    }
}

/// Reads the column names of a RowDescription payload.
pub fn parse_row_description(payload: &[u8]) -> (r: Vec<String>)
    ensures
        r@.map_values(|s: String| s@) == row_description_names(payload@),
{
    let mut names: Vec<String> = Vec::new();
    if payload.len() < 2 {
        assert(names@.map_values(|s: String| s@) =~= Seq::<Seq<char>>::empty());
        return names;
    }
    let count = read_field_count(payload);
    let mut left: usize = count;
    let mut offset: usize = 2;
    assert(names@.map_values(|s: String| s@) =~= Seq::<Seq<char>>::empty());
    while left > 0 && offset < payload.len()
        invariant
            2 <= offset,
            row_names_from(payload@, offset as int, left as int, names@.map_values(|s: String| s@))
                == row_description_names(payload@),
            payload@.len() >= 2,
        decreases payload@.len() - offset,
    {
        let end = match find_nul(payload, offset) {
            Some(j) => j,
            None => payload.len(),
        };
        proof { lemma_nul_from_bounds(payload@, offset as int); }
        let name = text_of_bytes(copy_range(payload, offset, end).as_slice());
        let ghost before = names@.map_values(|s: String| s@);
        names.push(name);
        assert(names@.map_values(|s: String| s@) =~= before.push(name@));
        if payload.len() - end <= 19 {
            offset = payload.len();
            left = 0;
        } else {
            offset = end + 19;
            left = left - 1;
        }
    }
    names
}

/// The cells of a DataRow payload from `off` on, field `i` of `count`, set into `acc` under
/// the column names `names`. A negative length is SQL NULL and sets nothing; a field that
/// runs past the payload ends the row.
pub open spec fn row_cells_from(
    p: Seq<u8>,
    off: int,
    i: int,
    count: int,
    names: Seq<Seq<char>>,
    acc: Seq<(Seq<char>, Seq<char>)>,
) -> Seq<(Seq<char>, Seq<char>)>
    decreases p.len() - off,
{
    if i >= count || off < 0 || off + 4 > p.len() {
        acc
    } else {
        let l = be_u32_at(p, off);
        if l >= 2147483648 {
            row_cells_from(p, off + 4, i + 1, count, names, acc)
        } else if off + 4 + l > p.len() {
            acc
        } else {
            let v = bytes_text(p.subrange(off + 4, off + 4 + l));
            let next = if 0 <= i < names.len() { set_entry(acc, names[i], v) } else { acc };
            row_cells_from(p, off + 4 + l, i + 1, count, names, next)
        }
    }
}

/// The cells of a DataRow payload under the column names `names`.
pub open spec fn data_row_cells(p: Seq<u8>, names: Seq<Seq<char>>) -> Seq<(Seq<char>, Seq<char>)> {
    if p.len() < 2 {
        Seq::empty()
    } else {
        row_cells_from(p, 2, 0, field_count(p), names, Seq::empty())
    }
}

/// Reads a DataRow payload into column name → value; NULL columns are left out.
pub fn parse_data_row(payload: &[u8], column_names: &[String]) -> (r: TextMap)
    ensures
        r@ == data_row_cells(payload@, column_names@.map_values(|s: String| s@)),
{
    let ghost names = column_names@.map_values(|s: String| s@);
    let mut map = TextMap::new();
    if payload.len() < 2 {
        return map;
    }
    let count = read_field_count(payload);
    let mut offset: usize = 2;
    let mut i: usize = 0;
    while i < count
        invariant
            names == column_names@.map_values(|s: String| s@),
            count == field_count(payload@),
            payload@.len() >= 2,
            2 <= offset <= payload@.len(),
            row_cells_from(payload@, offset as int, i as int, count as int, names, map@)
                == data_row_cells(payload@, names),
        decreases payload@.len() - offset,
    {
        if payload.len() - offset < 4 {
            return map;
        }
        let len = read_u32_be(payload, offset);
        let ghost acc = map@;
        let ghost off = offset as int;
        if len >= 2147483648 {
            assert(row_cells_from(payload@, off, i as int, count as int, names, acc)
                == row_cells_from(payload@, off + 4, i + 1, count as int, names, acc));
            offset = offset + 4;
            i = i + 1;
        } else {
            let len = len as usize;
            if payload.len() - offset - 4 < len {
                return map;
            }
            let value = text_of_bytes(copy_range(payload, offset + 4, offset + 4 + len).as_slice());
            if i < column_names.len() {
                let name = string_of(chars_of(column_names[i].as_str()).as_slice());
                map.insert(name, value);
            }
            assert(row_cells_from(payload@, off, i as int, count as int, names, acc)
                == row_cells_from(payload@, off + 4 + len, i + 1, count as int, names, map@));
            offset = offset + 4 + len;
            i = i + 1;
        }
    }
    map
}

// ─── Loading ────────────────────────────────────────────────────────────────

/// Largest number of resolvers.
pub const MAX_RESOLVERS: usize = 10;

/// No two definitions share a name.
pub open spec fn unique_names(defs: Seq<ResolverDef>) -> bool {
    forall|i: int, j: int| 0 <= i < j < defs.len() ==> (#[trigger] defs[i]).name@ != (#[trigger] defs[j]).name@
}

/// Every dependency names some definition.
pub open spec fn dependencies_known(defs: Seq<ResolverDef>) -> bool {
    forall|i: int, k: int| 0 <= i < defs.len() && 0 <= k < defs[i].depends_on@.len() ==>
        #[trigger] names_some(defs, dep_name(defs[i], k))
}

pub open spec fn names_some(defs: Seq<ResolverDef>, n: Seq<char>) -> bool {
    exists|j: int| 0 <= j < defs.len() && (#[trigger] defs[j]).name@ == n
}

fn index_by_name(defs: &Vec<ResolverDef>, upto: usize, n: &str) -> (r: bool)
    requires
        upto <= defs@.len(),
    ensures
        r == exists|j: int| 0 <= j < upto && (#[trigger] defs@[j]).name@ == n@,
{
    let mut j: usize = 0;
    while j < upto
        invariant
            j <= upto,
            upto <= defs@.len(),
            forall|q: int| 0 <= q < j ==> (#[trigger] defs@[q]).name@ != n@,
        decreases upto - j,
    {
        if same_text(defs[j].name.as_str(), n) {
            return true;
        }
        j += 1;
    }
    false
}

/// Why a resolver file was refused.
#[derive(Debug, Clone, Copy, PartialEq, Eq)]
pub enum LoadError {
    /// The file holds no resolver.
    Empty,
    /// Two resolvers share a name.
    DuplicateName,
    /// A dependency names no resolver.
    UnknownDependency,
    /// More resolvers than allowed.
    TooMany,
    /// The dependencies hold a cycle.
    Cycle,
}

/// Validates resolver definitions (in file order) and puts them in dependency order.
pub fn validate_resolvers(defs: Vec<ResolverDef>) -> (r: Result<Vec<ResolverDef>, LoadError>)
    ensures
        defs@.len() == 0 <==> r == Err::<Vec<ResolverDef>, LoadError>(LoadError::Empty),
        r == Err::<Vec<ResolverDef>, LoadError>(LoadError::DuplicateName) <==> (defs@.len() > 0 && !unique_names(defs@)),
        r == Err::<Vec<ResolverDef>, LoadError>(LoadError::UnknownDependency) <==> (defs@.len() > 0 && unique_names(defs@)
            && !dependencies_known(defs@)),
        r == Err::<Vec<ResolverDef>, LoadError>(LoadError::TooMany) <==> (defs@.len() > MAX_RESOLVERS && unique_names(defs@)
            && dependencies_known(defs@)),
        r == Err::<Vec<ResolverDef>, LoadError>(LoadError::Cycle) <==> (0 < defs@.len() <= MAX_RESOLVERS && unique_names(defs@)
            && dependencies_known(defs@) && exists|s: Set<int>| blocked_set(defs@, s)),
        r matches Ok(sorted) ==> {
            &&& dependencies_first(sorted@)
            &&& exists|order: Seq<int>| {
                &&& is_dependency_order(defs@, order)
                &&& covers(defs@.len() as int, order)
                &&& order.len() == sorted@.len()
                &&& forall|i: int| 0 <= i < order.len() ==> sorted@[i] == defs@[#[trigger] order[i]]
            }
        },
{
    if defs.len() == 0 {
        return Err(LoadError::Empty);
    }
    let mut i: usize = 0;
    while i < defs.len()
        invariant
            i <= defs@.len(),
            forall|a: int, b: int| 0 <= a < b < i ==> (#[trigger] defs@[a]).name@ != (#[trigger] defs@[b]).name@,
        decreases defs@.len() - i,
    {
        if index_by_name(&defs, i, defs[i].name.as_str()) {
            return Err(LoadError::DuplicateName);
        }
        i += 1;
    }
    let mut i: usize = 0;
    while i < defs.len()
        invariant
            i <= defs@.len(),
            unique_names(defs@),
            forall|a: int, k: int| 0 <= a < i && 0 <= k < defs@[a].depends_on@.len() ==>
                #[trigger] names_some(defs@, dep_name(defs@[a], k)),
        decreases defs@.len() - i,
    {
        let d = &defs[i];
        let mut k: usize = 0;
        while k < d.depends_on.len()
            invariant
                k <= d.depends_on@.len(),
                *d == defs@[i as int],
                i < defs@.len(),
                unique_names(defs@),
                forall|q: int| 0 <= q < k ==> #[trigger] names_some(defs@, dep_name(defs@[i as int], q)),
            decreases d.depends_on@.len() - k,
        {
            if !index_by_name(&defs, defs.len(), d.depends_on[k].as_str()) {
                assert(!names_some(defs@, dep_name(defs@[i as int], k as int)));
                return Err(LoadError::UnknownDependency);
            }
            k += 1;
        }
        i += 1;
    }
    if defs.len() > MAX_RESOLVERS {
        return Err(LoadError::TooMany);
    }
    match topological_sort(defs) {
        Ok(sorted) => Ok(sorted),
        Err(_) => Err(LoadError::Cycle),
    }
}

} // verus!
