//! The decisions of one client session: reading the tenant identity out of the user
//! name, the context map and the injected `SET` batch, and what to do with each
//! upstream message during authentication, resolving and injection.

use vstd::prelude::*;
use crate::text::{
    opt_string_view,
    chars_of, string_of, same_text, find_text, find_from, lemma_find_from, slice_chars, split_text,
    split_on, occurs_at, has_key, first_key_at, set_entry, lemma_set_entry, lookup_first,
    lemma_lookup_first, TextMap,
};
use crate::quote::{enclosed, escape_set_value, quote_ident, all_ident_chars, QuoteError};
use crate::codec::{
    joined, join_texts, BackendMessage, MSG_ROW_DESCRIPTION, MSG_DATA_ROW, MSG_ERROR_RESPONSE, MSG_READY_FOR_QUERY,
    MSG_PARAMETER_STATUS, MSG_TERMINATE, MAX_FRAME_LEN, build_ready_for_query, framed, AUTH_OK, AUTH_SASL_FINAL,
};
use crate::wire::{be_u32_at, read_u32_be, be32};
use crate::config::Config;
use crate::pool::HandshakeTail;
use crate::resolver::{ResolverDef, opt_texts, make_cache_key, substitute_params, substituted, input_hash, parse_row_description, parse_data_row, data_row_cells, row_description_names};

verus! {

// ─── Context map ────────────────────────────────────────────────────────────

/// Session variable → optional value, in the order the variables were first set.
/// An absent value is sent upstream as the empty string.
pub struct ContextMap {
    entries: Vec<(String, Option<String>)>,
}

impl View for ContextMap {
    type V = Seq<(Seq<char>, Option<Seq<char>>)>;

    closed spec fn view(&self) -> Seq<(Seq<char>, Option<Seq<char>>)> {
        self.entries@.map_values(|e: (String, Option<String>)| (e.0@, opt_string_view(e.1)))
    }
}

impl ContextMap {
    pub fn new() -> (r: Self)
        ensures
            r@ == Seq::<(Seq<char>, Option<Seq<char>>)>::empty(),
    {
        let r = ContextMap { entries: Vec::new() };
        assert(r@ =~= Seq::<(Seq<char>, Option<Seq<char>>)>::empty());
        r
    }

    pub fn len(&self) -> (r: usize)
        ensures
            r == self@.len(),
    {
        self.entries.len()
    }

    /// The `i`-th variable and value.
    pub fn entry(&self, i: usize) -> (r: (&String, &Option<String>))
        requires
            i < self@.len(),
        ensures
            (r.0@, opt_string_view(*r.1)) == self@[i as int],
    {
        let e = &self.entries[i];
        (&e.0, &e.1)
    }

    fn index_of(&self, key: &str) -> (r: Option<usize>)
        ensures
            r matches Some(i) ==> first_key_at(self@, key@, i as int),
            r is None ==> !has_key(self@, key@),
    {
        let mut i: usize = 0;
        while i < self.entries.len()
            invariant
                i <= self@.len(),
                self@.len() == self.entries@.len(),
                forall|j: int| 0 <= j < i ==> (#[trigger] self@[j]).0 != key@,
            decreases self@.len() - i,
        {
            if same_text(self.entries[i].0.as_str(), key) {
                return Some(i);
            }
            i += 1;
        }
        None
    }

    /// The value of `key`: `None` when the variable is unknown, `Some(None)` when it is absent.
    pub fn get(&self, key: &str) -> (r: Option<Option<String>>)
        ensures
            match r {
                None => lookup_first(self@, key@) is None,
                Some(v) => lookup_first(self@, key@) == Some(opt_string_view(v)),
            },
            r is None <==> !has_key(self@, key@),
            r matches Some(v) ==> exists|i: int| first_key_at(self@, key@, i) && self@[i].1 == opt_string_view(v),
    {
        proof { lemma_lookup_first(self@, key@); }
        match self.index_of(key) {
            Some(i) => {
                let v = match &self.entries[i].1 {
                    Some(s) => Some(s.clone()),
                    None => None,
                };
                assert(first_key_at(self@, key@, i as int) && self@[i as int].1 == opt_string_view(v));
                Some(v)
            },
            None => None,
        }
    }

    /// Sets `key` to `value`, in place when the variable is already there.
    pub fn set(&mut self, key: String, value: Option<String>)
        ensures
            final(self)@ == set_entry(old(self)@, key@, opt_string_view(value)),
    {
        let ghost kv = (key@, opt_string_view(value));
        proof { lemma_set_entry(self@, key@, opt_string_view(value)); }
        match self.index_of(key.as_str()) {
            Some(i) => {
                self.entries.set(i, (key, value));
                assert(self@ =~= old(self)@.update(i as int, kv));
            },
            None => {
                self.entries.push((key, value));
                assert(self@ =~= old(self)@.push(kv));
            },
        }
    }
}

// ─── Tenant identity ────────────────────────────────────────────────────────

/// Why a user name does not carry a valid tenant identity.
#[derive(Debug, Clone, Copy, PartialEq, Eq)]
pub enum IdentityError {
    /// The tenant separator does not occur.
    MissingSeparator,
    /// The role or the context part is empty.
    EmptyPart,
    /// The number of context values differs from the number of context variables.
    WrongCount,
    /// Some context value is empty.
    EmptyValue,
}

/// The tenant identity read from a user name: the role and one value per context variable.
pub struct TenantIdentity {
    pub role: String,
    pub values: Vec<String>,
}

/// The context values of `payload`: its pieces between occurrences of `vsep`.
pub open spec fn context_values(payload: Seq<char>, vsep: Seq<char>, n: nat) -> Seq<Seq<char>> {
    split_on(payload, vsep)
}

/// The identity read from `user`, or why there is none.
pub open spec fn identity_of(user: Seq<char>, sep: Seq<char>, vsep: Seq<char>, n: nat)
    -> Result<(Seq<char>, Seq<Seq<char>>), IdentityError>
{
    match find_from(user, sep, 0) {
        None => Err(IdentityError::MissingSeparator),
        Some(i) => {
            let role = user.subrange(0, i);
            let payload = user.subrange(i + sep.len(), user.len() as int);
            let vals = context_values(payload, vsep, n);
            if role.len() == 0 || payload.len() == 0 {
                Err(IdentityError::EmptyPart)
            } else if vals.len() != n {
                Err(IdentityError::WrongCount)
            } else if exists|j: int| 0 <= j < vals.len() && (#[trigger] vals[j]).len() == 0 {
                Err(IdentityError::EmptyValue)
            } else {
                Ok((role, vals))
            }
        },
    }
}

/// Splits a user name at the first tenant separator into the role and the context part,
/// and the context part into `n_vars` values.
pub fn parse_tenant_identity(user: &str, tenant_separator: &str, value_separator: &str, n_vars: usize)
    -> (r: Result<TenantIdentity, IdentityError>)
    ensures
        match identity_of(user@, tenant_separator@, value_separator@, n_vars as nat) {
            Ok((role, vals)) => r matches Ok(t) && t.role@ == role
                && t.values@.map_values(|v: String| v@) == vals,
            Err(e) => r == Err::<TenantIdentity, IdentityError>(e),
        },
{
    let u = chars_of(user);
    let sep = chars_of(tenant_separator);
    let vsep = chars_of(value_separator);
    let i = match find_text(&u, &sep, 0) {
        Some(i) => i,
        None => return Err(IdentityError::MissingSeparator),
    };
    proof { lemma_find_from(u@, sep@, 0); }
    assert(occurs_at(u@, sep@, i as int));
    assert(i + sep@.len() <= u.len());
    let role = slice_chars(&u, 0, i);
    let payload = slice_chars(&u, i + sep.len(), u.len());
    if role.len() == 0 || payload.len() == 0 {
        return Err(IdentityError::EmptyPart);
    }
    let pieces: Vec<Vec<char>> = split_text(&payload, &vsep);
    let ghost vals = pieces@.map_values(|p: Vec<char>| p@);
    assert(vals == context_values(payload@, vsep@, n_vars as nat));
    if pieces.len() != n_vars {
        return Err(IdentityError::WrongCount);
    }
    let mut values: Vec<String> = Vec::new();
    let mut j: usize = 0;
    while j < pieces.len()
        invariant
            j <= pieces@.len(),
            vals == pieces@.map_values(|p: Vec<char>| p@),
            u@ == user@,
            sep@ == tenant_separator@,
            vsep@ == value_separator@,
            find_from(u@, sep@, 0) == Some(i as int),
            role@ == u@.subrange(0, i as int),
            payload@ == u@.subrange(i + sep@.len(), u@.len() as int),
            role@.len() > 0,
            payload@.len() > 0,
            vals.len() == n_vars,
            vals == context_values(payload@, vsep@, n_vars as nat),
            values@.map_values(|v: String| v@) == vals.subrange(0, j as int),
            forall|q: int| 0 <= q < j ==> (#[trigger] vals[q]).len() > 0,
        decreases pieces@.len() - j,
    {
        if pieces[j].len() == 0 {
            assert(vals[j as int].len() == 0);
            return Err(IdentityError::EmptyValue);
        }
        let ghost before = values@.map_values(|v: String| v@);
        let text = string_of(pieces[j].as_slice());
        assert(text@ == vals[j as int]);
        values.push(text);
        assert(values@.map_values(|v: String| v@) =~= before.push(vals[j as int]));
        assert(vals.subrange(0, j + 1) =~= vals.subrange(0, j as int).push(vals[j as int]));
        j += 1;
    }
    assert(vals.subrange(0, vals.len() as int) =~= vals);
    Ok(TenantIdentity { role: string_of(role.as_slice()), values })
}

/// The context map seeded from the identity: each variable with its value, in order.
pub open spec fn static_context(vars: Seq<Seq<char>>, vals: Seq<Seq<char>>, k: int)
    -> Seq<(Seq<char>, Option<Seq<char>>)>
    decreases k,
{
    if k <= 0 || k > vars.len() || k > vals.len() {
        Seq::empty()
    } else {
        set_entry(static_context(vars, vals, k - 1), vars[k - 1], Some(vals[k - 1]))
    }
}

/// Pairs each context variable with its value (as many pairs as the shorter list).
pub fn build_static_context(context_variables: &[String], context_values: &[String]) -> (r: ContextMap)
    ensures
        r@ == static_context(
            context_variables@.map_values(|v: String| v@),
            context_values@.map_values(|v: String| v@),
            if context_variables@.len() < context_values@.len() { context_variables@.len() as int }
            else { context_values@.len() as int },
        ),
{
    let ghost vars = context_variables@.map_values(|v: String| v@);
    let ghost vals = context_values@.map_values(|v: String| v@);
    let n = if context_variables.len() < context_values.len() { context_variables.len() } else { context_values.len() };
    let mut map = ContextMap::new();
    let mut i: usize = 0;
    while i < n
        invariant
            i <= n,
            n <= context_variables@.len(),
            n <= context_values@.len(),
            vars == context_variables@.map_values(|v: String| v@),
            vals == context_values@.map_values(|v: String| v@),
            map@ == static_context(vars, vals, i as int),
        decreases n - i,
    {
        let var = string_of(chars_of(context_variables[i].as_str()).as_slice());
        let val = string_of(chars_of(context_values[i].as_str()).as_slice());
        map.set(var, Some(val));
        i += 1;
    }
    map
}

// ─── Injection ──────────────────────────────────────────────────────────────

/// `SET <var> = <quoted value>`, with the empty string for an absent value.
pub open spec fn set_clause(var: Seq<char>, val: Option<Seq<char>>) -> Seq<char> {
    "SET "@ + var + " = "@ + match val {
        Some(v) => enclosed(v, '\''),
        None => "''"@,
    }
}

/// The `SET` clauses of the first `k` context entries.
pub open spec fn set_clauses(ctx: Seq<(Seq<char>, Option<Seq<char>>)>) -> Seq<Seq<char>> {
    ctx.map_values(|e: (Seq<char>, Option<Seq<char>>)| set_clause(e.0, e.1))
}

/// The injected batch: every `SET` clause, then `SET ROLE "<role>"`, joined by "; " and ended by ";".
pub open spec fn injection_sql(ctx: Seq<(Seq<char>, Option<Seq<char>>)>, role: Seq<char>) -> Seq<char> {
    joined(set_clauses(ctx).push("SET ROLE "@ + enclosed(role, '"')), "; "@) + ";"@
}

fn append_text(out: &mut Vec<char>, s: &str)
    ensures
        final(out)@ == old(out)@ + s@,
{
    let mut t = chars_of(s);
    out.append(&mut t);
}

/// Builds the single query that sets every context variable and then the role.
/// Fails when the role is not a plain identifier.
pub fn build_injection_sql(context: &ContextMap, role: &str) -> (r: Result<String, QuoteError>)
    ensures
        r is Ok <==> all_ident_chars(role@),
        r matches Ok(sql) ==> sql@ == injection_sql(context@, role@),
        r is Err ==> r == Err::<String, QuoteError>(QuoteError::InvalidIdentifier),
{
    let quoted_role = match quote_ident(role) {
        Ok(q) => q,
        Err(e) => return Err(e),
    };
    let mut clauses: Vec<String> = Vec::new();
    let mut i: usize = 0;
    while i < context.len()
        invariant
            i <= context@.len(),
            clauses@.map_values(|c: String| c@) == set_clauses(context@).subrange(0, i as int),
        decreases context@.len() - i,
    {
        let (var, val) = context.entry(i);
        let mut c: Vec<char> = Vec::new();
        append_text(&mut c, "SET ");
        append_text(&mut c, var.as_str());
        append_text(&mut c, " = ");
        match val {
            Some(v) => append_text(&mut c, escape_set_value(v.as_str()).as_str()),
            None => append_text(&mut c, "''"),
        }
        let ghost before = clauses@.map_values(|c: String| c@);
        assert(c@ =~= set_clause(context@[i as int].0, context@[i as int].1));
        let text = string_of(c.as_slice());
        clauses.push(text);
        assert(clauses@.map_values(|c: String| c@) =~= before.push(text@));
        assert(set_clauses(context@).subrange(0, i + 1) =~= set_clauses(context@).subrange(0, i as int).push(set_clause(context@[i as int].0, context@[i as int].1)));
        i += 1;
    }
    let mut rc: Vec<char> = Vec::new();
    append_text(&mut rc, "SET ROLE ");
    append_text(&mut rc, quoted_role.as_str());
    let ghost before = clauses@.map_values(|c: String| c@);
    clauses.push(string_of(rc.as_slice()));
    assert(set_clauses(context@).subrange(0, context@.len() as int) =~= set_clauses(context@));
    assert(clauses@.map_values(|c: String| c@) =~= set_clauses(context@).push("SET ROLE "@ + enclosed(role@, '"')));
    let joined_text = join_texts(&clauses, "; ");
    let mut out = chars_of(joined_text.as_str());
    append_text(&mut out, ";");
    Ok(string_of(out.as_slice()))
}

// ─── Resolver runs ──────────────────────────────────────────────────────────

/// What a resolver's parameters give against the context.
pub enum ResolverInputs {
    /// Every parameter has a value: run the query with these, in parameter order.
    Ready(Vec<Option<String>>),
    /// Some parameter is absent: the resolver is skipped and its outputs become absent.
    Skip,
    /// A parameter names no context variable (the first such one).
    UnknownParam(String),
}

/// Some parameter among the first `k` names no context variable.
pub open spec fn some_unknown(params: Seq<Seq<char>>, ctx: Seq<(Seq<char>, Option<Seq<char>>)>, k: int) -> bool {
    exists|j: int| 0 <= j < k && #[trigger] lookup_first(ctx, params[j]) is None
}

/// Some parameter among the first `k` is absent.
pub open spec fn some_absent(params: Seq<Seq<char>>, ctx: Seq<(Seq<char>, Option<Seq<char>>)>, k: int) -> bool {
    exists|j: int| 0 <= j < k && #[trigger] lookup_first(ctx, params[j]) == Some(None::<Seq<char>>)
}

pub open spec fn param_names(def: ResolverDef) -> Seq<Seq<char>> {
    def.params@.map_values(|p: String| p@)
}

/// Looks the resolver's parameters up in the context.
pub fn resolver_inputs(def: &ResolverDef, context: &ContextMap) -> (r: ResolverInputs)
    ensures
        ({
            let ps = param_names(*def);
            let ctx = context@;
            &&& (r is UnknownParam <==> some_unknown(ps, ctx, ps.len() as int))
            &&& (r matches ResolverInputs::UnknownParam(n) ==> exists|j: int| 0 <= j < ps.len() && ps[j] == n@
                && lookup_first(ctx, ps[j]) is None && !some_unknown(ps, ctx, j))
            &&& (r is Skip <==> !some_unknown(ps, ctx, ps.len() as int) && some_absent(ps, ctx, ps.len() as int))
            &&& (r matches ResolverInputs::Ready(vs) ==> vs@.len() == ps.len() && forall|j: int| 0 <= j < ps.len()
                ==> lookup_first(ctx, ps[j]) == Some(#[trigger] opt_texts(vs@)[j]))
        }),
{
    let ghost ps = param_names(*def);
    let mut values: Vec<Option<String>> = Vec::new();
    let mut skip = false;
    let mut i: usize = 0;
    while i < def.params.len()
        invariant
            i <= def.params@.len(),
            ps == param_names(*def),
            !some_unknown(ps, context@, i as int),
            skip == some_absent(ps, context@, i as int),
            values@.len() == i,
            forall|j: int| 0 <= j < i ==> lookup_first(context@, ps[j]) == Some(#[trigger] opt_texts(values@)[j]),
        decreases def.params@.len() - i,
    {
        assert(ps[i as int] == def.params@[i as int]@);
        match context.get(def.params[i].as_str()) {
            None => {
                assert(lookup_first(context@, ps[i as int]) is None);
                let name = string_of(chars_of(def.params[i].as_str()).as_slice());
                return ResolverInputs::UnknownParam(name);
            },
            Some(v) => {
                if v.is_none() {
                    skip = true;
                }
                let ghost old_vals = values@;
                assert(lookup_first(context@, ps[i as int]) == Some(opt_string_view(v)));
                values.push(v);
                assert(opt_texts(values@)[i as int] == opt_string_view(values@[i as int]));
                assert forall|j: int| 0 <= j < i + 1 implies lookup_first(context@, ps[j]) == Some(#[trigger] opt_texts(values@)[j]) by {
                    if j < i {
                        assert(values@[j] == old_vals[j]);
                        assert(opt_texts(old_vals)[j] == opt_string_view(old_vals[j]));
                        assert(opt_texts(values@)[j] == opt_string_view(values@[j]));
                    }
                }
                assert(skip == some_absent(ps, context@, i + 1)) by {
                    if some_absent(ps, context@, i + 1) && !some_absent(ps, context@, i as int) {
                        assert(lookup_first(context@, ps[i as int]) == Some(None::<Seq<char>>));
                    }
                }
                assert(!some_unknown(ps, context@, i + 1));
            },
        }
        i += 1;
    }
    if skip {
        ResolverInputs::Skip
    } else {
        ResolverInputs::Ready(values)
    }
}

/// The context after setting each injected variable of `inject` to absent.
pub open spec fn publish_absent(ctx: Seq<(Seq<char>, Option<Seq<char>>)>, inject: Seq<(Seq<char>, Seq<char>)>, k: int)
    -> Seq<(Seq<char>, Option<Seq<char>>)>
    decreases k,
{
    if k <= 0 || k > inject.len() {
        ctx
    } else {
        set_entry(publish_absent(ctx, inject, k - 1), inject[k - 1].0, None)
    }
}

/// The context after setting each injected variable to its column in `row` (absent when
/// the row has no such column).
pub open spec fn publish_row(
    ctx: Seq<(Seq<char>, Option<Seq<char>>)>,
    inject: Seq<(Seq<char>, Seq<char>)>,
    row: Seq<(Seq<char>, Seq<char>)>,
    k: int,
) -> Seq<(Seq<char>, Option<Seq<char>>)>
    decreases k,
{
    if k <= 0 || k > inject.len() {
        ctx
    } else {
        set_entry(publish_row(ctx, inject, row, k - 1), inject[k - 1].0, lookup_first(row, inject[k - 1].1))
    }
}

pub open spec fn inject_pairs(def: ResolverDef) -> Seq<(Seq<char>, Seq<char>)> {
    def.inject@.map_values(|e: (String, String)| (e.0@, e.1@))
}

/// Marks every output of a skipped resolver as absent.
pub fn publish_skipped(def: &ResolverDef, context: &mut ContextMap)
    ensures
        final(context)@ == publish_absent(old(context)@, inject_pairs(*def), def.inject@.len() as int),
{
    let ghost inj = inject_pairs(*def);
    let mut i: usize = 0;
    while i < def.inject.len()
        invariant
            i <= def.inject@.len(),
            inj == inject_pairs(*def),
            context@ == publish_absent(old(context)@, inj, i as int),
        decreases def.inject@.len() - i,
    {
        let var = string_of(chars_of(def.inject[i].0.as_str()).as_slice());
        assert(inj[i as int].0 == def.inject@[i as int].0@);
        context.set(var, None);
        i += 1;
    }
}

/// Publishes a resolver result into the context: the first row's columns, or every
/// output absent when there was no row.
pub fn publish_result(def: &ResolverDef, context: &mut ContextMap, row: Option<&TextMap>)
    ensures
        row is None ==> final(context)@ == publish_absent(old(context)@, inject_pairs(*def), def.inject@.len() as int),
        row matches Some(rw) ==> final(context)@ == publish_row(old(context)@, inject_pairs(*def), rw@, def.inject@.len() as int),
{
    match row {
        None => publish_skipped(def, context),
        Some(rw) => {
            let ghost inj = inject_pairs(*def);
            let mut i: usize = 0;
            while i < def.inject.len()
                invariant
                    i <= def.inject@.len(),
                    inj == inject_pairs(*def),
                    context@ == publish_row(old(context)@, inj, rw@, i as int),
                decreases def.inject@.len() - i,
            {
                let var = string_of(chars_of(def.inject[i].0.as_str()).as_slice());
                let val = rw.get(def.inject[i].1.as_str());
                assert(inj[i as int] == (def.inject@[i as int].0@, def.inject@[i as int].1@));
                                context.set(var, val);
                i += 1;
            }
        },
    }
}

/// Why a resolver run failed.
#[derive(Debug, PartialEq, Eq)]
pub enum ResolveError {
    /// A parameter names no context variable.
    UnknownParam(String),
    /// A required resolver returned no row.
    RequiredEmpty(String),
    /// The query failed upstream.
    QueryFailed(String),
}

/// Applies the outcome of a resolver's query: a required resolver with no row fails.
pub fn apply_query_result(def: &ResolverDef, context: &mut ContextMap, row: Option<&TextMap>)
    -> (r: Result<(), ResolveError>)
    ensures
        r is Err <==> (row is None && def.required),
        r is Err ==> final(context)@ == old(context)@ && r->Err_0 is RequiredEmpty,
        r is Ok ==> (row is None ==> final(context)@ == publish_absent(old(context)@, inject_pairs(*def), def.inject@.len() as int)),
        r is Ok ==> (row matches Some(rw) ==> final(context)@ == publish_row(old(context)@, inject_pairs(*def), rw@, def.inject@.len() as int)),
{
    if row.is_none() && def.required {
        let name = string_of(chars_of(def.name.as_str()).as_slice());
        return Err(ResolveError::RequiredEmpty(name));
    }
    publish_result(def, context, row);
    Ok(())
}

// ─── Query replies ──────────────────────────────────────────────────────────

/// What a query reply has shown so far: the column names of the first RowDescription,
/// the first DataRow, and the text of an ErrorResponse.
pub struct QueryReply {
    pub columns: Option<Vec<String>>,
    pub first_row: Option<TextMap>,
    pub error: Option<String>,
}

/// What to do after one message of a query reply.
pub enum ReplyStep {
    /// Read on.
    Continue,
    /// The reply is complete: the first row, if any.
    Done(Option<TextMap>),
    /// The reply is complete and the query failed.
    Failed(String),
}

impl QueryReply {
    pub fn new() -> (r: Self)
        ensures
            r.columns is None && r.first_row is None && r.error is None,
    {
        QueryReply { columns: None, first_row: None, error: None }
    }

    /// Takes one reply message. The first RowDescription names the columns, the first
    /// DataRow is kept, an ErrorResponse is remembered, and ReadyForQuery ends the reply.
    pub fn on_message(&mut self, msg: &BackendMessage) -> (r: ReplyStep)
        ensures
            msg.msg_type == MSG_READY_FOR_QUERY && old(self).error is None ==> (r matches ReplyStep::Done(row)
                && (row is None <==> old(self).first_row is None)
                && (row matches Some(rw) ==> rw@ == old(self).first_row->Some_0@)),
            msg.msg_type == MSG_READY_FOR_QUERY && old(self).error is Some ==> (r matches ReplyStep::Failed(e)
                && e@ == old(self).error->Some_0@),
            msg.msg_type != MSG_READY_FOR_QUERY ==> r is Continue,
            msg.msg_type == MSG_ROW_DESCRIPTION && old(self).columns is None ==> (final(self).columns matches Some(c)
                && c@.map_values(|s: String| s@) == row_description_names(msg.payload@)),
            msg.msg_type == MSG_DATA_ROW && old(self).first_row is None ==> (final(self).first_row matches Some(rw)
                && rw@ == data_row_cells(msg.payload@, match old(self).columns {
                    Some(c) => c@.map_values(|s: String| s@),
                    None => Seq::empty(),
                })),
            msg.msg_type == MSG_ERROR_RESPONSE && old(self).error is None ==> final(self).error is Some,
    {
        if msg.msg_type == MSG_READY_FOR_QUERY {
            match &self.error {
                Some(e) => {
                    let e2 = e.clone();
                    return ReplyStep::Failed(e2);
                },
                None => {},
            }
            let row = match &self.first_row {
                Some(rw) => Some(rw.duplicate()),
                None => None,
            };
            return ReplyStep::Done(row);
        }
        if msg.msg_type == MSG_ROW_DESCRIPTION {
            if self.columns.is_none() {
                self.columns = Some(parse_row_description(msg.payload.as_slice()));
            }
        } else if msg.msg_type == MSG_DATA_ROW {
            if self.first_row.is_none() {
                let row = match &self.columns {
                    Some(c) => parse_data_row(msg.payload.as_slice(), c.as_slice()),
                    None => {
                        let empty: Vec<String> = Vec::new();
                        assert(empty@.map_values(|s: String| s@) =~= Seq::<Seq<char>>::empty());
                        parse_data_row(msg.payload.as_slice(), empty.as_slice())
                    },
                };
                self.first_row = Some(row);
            }
        } else if msg.msg_type == MSG_ERROR_RESPONSE {
            if self.error.is_none() {
                self.error = Some(msg.error_message());
            }
        }
        ReplyStep::Continue
    }
}

// ─── Client frames in pooled mode ───────────────────────────────────────────

/// What the front of the client buffer holds, in pooled mode.
#[derive(Debug, Clone, Copy, PartialEq, Eq)]
pub enum ClientFrame {
    /// Not a whole message yet.
    Incomplete,
    /// A length field under 4: forward the whole buffer as it is and let the server reject it.
    Malformed,
    /// A whole message of this many bytes: forward it.
    Forward(usize),
    /// A whole Terminate message of this many bytes: consume it and stop.
    Terminate(usize),
}

/// Classifies the message at the front of a client buffer.
pub fn classify_client_frame(buf: &[u8]) -> (r: ClientFrame)
    ensures
        buf@.len() < 5 ==> r == ClientFrame::Incomplete,
        buf@.len() >= 5 && (be_u32_at(buf@, 1) < 4 || be_u32_at(buf@, 1) > MAX_FRAME_LEN) ==> r == ClientFrame::Malformed,
        buf@.len() >= 5 && 4 <= be_u32_at(buf@, 1) <= MAX_FRAME_LEN ==> {
            let n = 1 + be_u32_at(buf@, 1);
            &&& buf@.len() < n ==> r == ClientFrame::Incomplete
            &&& buf@.len() >= n && buf@[0] == MSG_TERMINATE ==> r == ClientFrame::Terminate(n as usize)
            &&& buf@.len() >= n && buf@[0] != MSG_TERMINATE ==> r == ClientFrame::Forward(n as usize)
        },
{
    if buf.len() < 5 {
        return ClientFrame::Incomplete;
    }
    let length = read_u32_be(buf, 1);
    if length < 4 || length > MAX_FRAME_LEN {
        return ClientFrame::Malformed;
    }
    let total = 1 + length as usize;
    if buf.len() < total {
        return ClientFrame::Incomplete;
    }
    if buf[0] == MSG_TERMINATE {
        ClientFrame::Terminate(total)
    } else {
        ClientFrame::Forward(total)
    }
}

// ─── Startup ────────────────────────────────────────────────────────────────

/// How a session goes on after its startup message.
pub enum StartupDecision {
    /// No user name: fatal `08004`.
    MissingUser,
    /// A user on the bypass list: forward everything untouched.
    Bypass,
    /// A tenant session for `database`.
    Tenant { identity: TenantIdentity, database: String },
    /// The user name carries no valid identity: fatal `28000`.
    Malformed(IdentityError),
}

/// Whether `name` is in `list`.
fn in_list(list: &Vec<String>, name: &str) -> (r: bool)
    ensures
        r == list@.map_values(|s: String| s@).contains(name@),
{
    let ghost lv = list@.map_values(|s: String| s@);
    let mut i: usize = 0;
    while i < list.len()
        invariant
            i <= list@.len(),
            lv == list@.map_values(|s: String| s@),
            forall|j: int| 0 <= j < i ==> lv[j] != name@,
        decreases list@.len() - i,
    {
        if same_text(list[i].as_str(), name) {
            assert(lv[i as int] == name@);
            return true;
        }
        i += 1;
    }
    false
}

/// Decides on the startup parameters: user name, bypass, tenant identity, database
/// (`"default"` when absent).
pub fn startup_decision(params: &TextMap, config: &Config) -> (r: StartupDecision)
    ensures
        ({
            let user = match lookup_first(params@, "user"@) { Some(u) => u, None => Seq::<char>::empty() };
            &&& (user.len() == 0 <==> r is MissingUser)
            &&& (user.len() > 0 && config.superuser_bypass@.map_values(|s: String| s@).contains(user)) <==> r is Bypass
            &&& (user.len() > 0 && !config.superuser_bypass@.map_values(|s: String| s@).contains(user)) ==>
                match identity_of(user, config.tenant_separator@, config.value_separator@, config.context_variables@.len()) {
                    Ok((role, vals)) => r matches StartupDecision::Tenant { identity, database }
                        && identity.role@ == role && identity.values@.map_values(|v: String| v@) == vals
                        && database@ == (match lookup_first(params@, "database"@) { Some(d) => d, None => "default"@ }),
                    Err(e) => r == StartupDecision::Malformed(e),
                }
        }),
{
    let user = match params.get("user") {
        Some(u) => u,
        None => String::new(),
    };
    if user.as_str().is_empty() {
        return StartupDecision::MissingUser;
    }
    if in_list(&config.superuser_bypass, user.as_str()) {
        return StartupDecision::Bypass;
    }
    match parse_tenant_identity(user.as_str(), config.tenant_separator.as_str(), config.value_separator.as_str(),
        config.context_variables.len()) {
        Ok(identity) => {
            let database = match params.get("database") {
                Some(d) => d,
                None => String::from_str("default"),
            };
            StartupDecision::Tenant { identity, database }
        },
        Err(e) => StartupDecision::Malformed(e),
    }
}

// ─── Replies during the handshake ───────────────────────────────────────────

/// What to do with one upstream message while waiting for a batch (injection or reset).
#[derive(Debug, Clone, Copy, PartialEq, Eq)]
pub enum BatchStep {
    /// ErrorResponse: the batch failed.
    Failed,
    /// ParameterStatus: pass it to the client.
    Forward,
    /// ReadyForQuery: the batch is done.
    Done,
    /// Anything else: read on.
    Continue,
}

/// Classifies one upstream message of a batch reply.
pub fn batch_step(msg: &BackendMessage) -> (r: BatchStep)
    ensures
        msg.msg_type == MSG_ERROR_RESPONSE ==> r == BatchStep::Failed,
        msg.msg_type == MSG_READY_FOR_QUERY ==> r == BatchStep::Done,
        msg.msg_type == MSG_PARAMETER_STATUS ==> r == BatchStep::Forward,
        msg.msg_type != MSG_ERROR_RESPONSE && msg.msg_type != MSG_READY_FOR_QUERY && msg.msg_type != MSG_PARAMETER_STATUS
            ==> r == BatchStep::Continue,
{
    if msg.is_error_response() {
        BatchStep::Failed
    } else if msg.is_ready_for_query() {
        BatchStep::Done
    } else if msg.is_parameter_status() {
        BatchStep::Forward
    } else {
        BatchStep::Continue
    }
}

/// The bytes a pooled session presents to its client after injection: the cached
/// ParameterStatus frames, the cached BackendKeyData frame, then ReadyForQuery('I').
pub open spec fn pooled_greeting(statuses: Seq<Seq<u8>>, key_data: Seq<u8>) -> Seq<u8> {
    statuses.fold_left(Seq::<u8>::empty(), |acc: Seq<u8>, f: Seq<u8>| acc + f) + key_data
        + framed(90u8, seq![73u8])
}

/// Builds the greeting of a pooled session from its bucket's handshake tail.
pub fn pooled_greeting_bytes(tail: &HandshakeTail) -> (r: Vec<u8>)
    ensures
        r@ == pooled_greeting(tail.param_statuses@.map_values(|f: Vec<u8>| f@), tail.backend_key_data@),
{
    let ghost fs = tail.param_statuses@.map_values(|f: Vec<u8>| f@);
    let mut out: Vec<u8> = Vec::new();
    let mut i: usize = 0;
    while i < tail.param_statuses.len()
        invariant
            i <= tail.param_statuses@.len(),
            fs == tail.param_statuses@.map_values(|f: Vec<u8>| f@),
            out@ == fs.subrange(0, i as int).fold_left(Seq::<u8>::empty(), |acc: Seq<u8>, f: Seq<u8>| acc + f),
        decreases tail.param_statuses@.len() - i,
    {
        crate::wire::push_all(&mut out, tail.param_statuses[i].as_slice());
        proof {
            let p = fs.subrange(0, i + 1);
            assert(p.drop_last() =~= fs.subrange(0, i as int));
            p.lemma_fold_left_split(Seq::<u8>::empty(), |acc: Seq<u8>, f: Seq<u8>| acc + f, i as int);
            assert(p.subrange(0, i as int) =~= fs.subrange(0, i as int));
            assert(p.subrange(i as int, i + 1) =~= seq![fs[i as int]]);
            reveal_with_fuel(Seq::fold_left, 2);
        }
        i += 1;
    }
    assert(fs.subrange(0, fs.len() as int) =~= fs);
    crate::wire::push_all(&mut out, tail.backend_key_data.as_slice());
    let rfq = build_ready_for_query();
    crate::wire::push_all(&mut out, rfq.as_slice());
    out
}

// ─── Resolver cache ─────────────────────────────────────────────────────────

/// A cached resolver result: the first row (`None` for no row) under the resolver's name and
/// input hash, until `expires_at` (milliseconds).
pub struct CacheEntry {
    name: String,
    hash: u64,
    row: Option<TextMap>,
    expires_at: u64,
}

/// A cached entry as plain values.
pub struct CacheEntryView {
    pub name: Seq<char>,
    pub hash: u64,
    pub row: Option<Seq<(Seq<char>, Seq<char>)>>,
    pub expires_at: u64,
}

/// Resolver results by `(name, input hash)`.
pub struct ResolverCache {
    entries: Vec<CacheEntry>,
}

pub closed spec fn cache_views(v: Seq<CacheEntry>) -> Seq<CacheEntryView> {
    v.map_values(|e: CacheEntry| CacheEntryView {
        name: e.name@,
        hash: e.hash,
        row: row_view(e.row),
        expires_at: e.expires_at,
    })
}

pub open spec fn row_view(r: Option<TextMap>) -> Option<Seq<(Seq<char>, Seq<char>)>> {
    match r {
        Some(t) => Some(t@),
        None => None,
    }
}

fn copy_row(r: &Option<TextMap>) -> (c: Option<TextMap>)
    ensures
        row_view(c) == row_view(*r),
{
    match r {
        Some(t) => Some(t.duplicate()),
        None => None,
    }
}

impl View for ResolverCache {
    type V = Seq<CacheEntryView>;

    closed spec fn view(&self) -> Seq<CacheEntryView> {
        cache_views(self.entries@)
    }
}

impl ResolverCache {
    /// No two entries share a key.
    pub open spec fn wf(&self) -> bool {
        forall|i: int, j: int| 0 <= i < j < self@.len() ==>
            !((#[trigger] self@[i]).name == (#[trigger] self@[j]).name && self@[i].hash == self@[j].hash)
    }

    pub fn new() -> (r: Self)
        ensures
            r.wf(),
            r@.len() == 0,
    {
        let r = ResolverCache { entries: Vec::new() };
        assert(r@ =~= Seq::<CacheEntryView>::empty());
        r
    }

    pub fn len(&self) -> (r: usize)
        ensures
            r == self@.len(),
    {
        self.entries.len()
    }

    fn index_of(&self, name: &str, hash: u64) -> (r: Option<usize>)
        ensures
            r matches Some(i) ==> i < self@.len() && self@[i as int].name == name@ && self@[i as int].hash == hash,
            r is None ==> forall|i: int| 0 <= i < self@.len() ==> !(self@[i].name == name@ && self@[i].hash == hash),
    {
        let mut i: usize = 0;
        while i < self.entries.len()
            invariant
                i <= self@.len(),
                self@.len() == self.entries@.len(),
                forall|j: int| 0 <= j < i ==> !(self@[j].name == name@ && self@[j].hash == hash),
            decreases self@.len() - i,
        {
            if self.entries[i].hash == hash && same_text(self.entries[i].name.as_str(), name) {
                return Some(i);
            }
            i += 1;
        }
        None
    }

    /// The cached result for `(name, hash)` if it is still live at `now_ms`.
    pub fn lookup(&self, name: &str, hash: u64, now_ms: u64) -> (r: Option<Option<TextMap>>)
        requires
            self.wf(),
        ensures
            r matches Some(row) ==> exists|i: int| 0 <= i < self@.len() && self@[i].name == name@
                && self@[i].hash == hash && self@[i].expires_at > now_ms && self@[i].row == row_view(row),
            r is None ==> forall|i: int| 0 <= i < self@.len() && self@[i].name == name@ && self@[i].hash == hash
                ==> self@[i].expires_at <= now_ms,
    {
        match self.index_of(name, hash) {
            Some(i) => {
                if self.entries[i].expires_at > now_ms {
                    let row = copy_row(&self.entries[i].row);
                    assert(self@[i as int].row == row_view(row));
                    Some(row)
                } else {
                    proof {
                        assert forall|j: int| 0 <= j < self@.len() && self@[j].name == name@ && self@[j].hash == hash
                            implies self@[j].expires_at <= now_ms by {
                            if j != i {
                                if j < i {
                                    assert(!((self@[j]).name == (self@[i as int]).name && self@[j].hash == self@[i as int].hash));
                                } else {
                                    assert(!((self@[i as int]).name == (self@[j]).name && self@[i as int].hash == self@[j].hash));
                                }
                            }
                        }
                    }
                    None
                }
            },
            None => None,
        }
    }

    /// Stores a result under `(name, hash)` until `expires_at_ms`, replacing an older one.
    pub fn store(&mut self, name: String, hash: u64, row: Option<TextMap>, expires_at_ms: u64)
        requires
            old(self).wf(),
        ensures
            final(self).wf(),
            exists|i: int| 0 <= i < final(self)@.len() && final(self)@[i].name == name@ && final(self)@[i].hash == hash
                && final(self)@[i].row == row_view(row) && final(self)@[i].expires_at == expires_at_ms,
            forall|i: int| 0 <= i < old(self)@.len() && !(old(self)@[i].name == name@ && old(self)@[i].hash == hash)
                ==> #[trigger] final(self)@.contains(old(self)@[i]),
    {
        let ghost ev = CacheEntryView { name: name@, hash, row: row_view(row), expires_at: expires_at_ms };
        match self.index_of(name.as_str(), hash) {
            Some(i) => {
                self.entries.set(i, CacheEntry { name, hash, row, expires_at: expires_at_ms });
                assert(self@ =~= old(self)@.update(i as int, ev));
                assert(self@[i as int] == ev);
                assert forall|q: int| 0 <= q < old(self)@.len() && !(old(self)@[q].name == ev.name && old(self)@[q].hash == hash)
                    implies #[trigger] self@.contains(old(self)@[q]) by {
                    assert(self@[q] == old(self)@[q]);
                }
            },
            None => {
                self.entries.push(CacheEntry { name, hash, row, expires_at: expires_at_ms });
                assert(self@ =~= old(self)@.push(ev));
                assert(self@[self@.len() - 1] == ev);
                assert forall|q: int| 0 <= q < old(self)@.len() && !(old(self)@[q].name == ev.name && old(self)@[q].hash == hash)
                    implies #[trigger] self@.contains(old(self)@[q]) by {
                    assert(self@[q] == old(self)@[q]);
                }
            },
        }
    }

    /// Drops every entry whose expiry is not after `now_ms`; returns how many were dropped.
    pub fn evict_expired(&mut self, now_ms: u64) -> (r: usize)
        requires
            old(self).wf(),
        ensures
            final(self).wf(),
            forall|i: int| 0 <= i < final(self)@.len() ==> (#[trigger] final(self)@[i]).expires_at > now_ms,
            forall|i: int| 0 <= i < old(self)@.len() && old(self)@[i].expires_at > now_ms
                ==> #[trigger] final(self)@.contains(old(self)@[i]),
            r + final(self)@.len() == old(self)@.len(),
    {
        let ghost orig = self@;
        let mut kept: Vec<CacheEntry> = Vec::new();
        let mut dropped: usize = 0;
        let n = self.entries.len();
        let mut rest = Vec::new();
        std::mem::swap(&mut rest, &mut self.entries);
        let ghost rv = rest@;
        assert(orig =~= cache_views(rv));
        while rest.len() > 0
            invariant
                orig == cache_views(rv),
                n == rv.len(),
                rest@.len() <= n,
                rest@ == rv.subrange(n - rest@.len(), n as int),
                dropped + kept@.len() == n - rest@.len(),
                forall|i: int, j: int| 0 <= i < j < orig.len() ==>
                    !((#[trigger] orig[i]).name == (#[trigger] orig[j]).name && orig[i].hash == orig[j].hash),
                forall|q: int| 0 <= q < kept@.len() ==> (#[trigger] cache_views(kept@)[q]).expires_at > now_ms,
                forall|q: int| 0 <= q < kept@.len() ==> exists|p: int| 0 <= p < n - rest@.len()
                    && #[trigger] cache_views(kept@)[q] == orig[p],
                forall|i: int, j: int| 0 <= i < j < kept@.len() ==>
                    !((#[trigger] cache_views(kept@)[i]).name == (#[trigger] cache_views(kept@)[j]).name
                    && cache_views(kept@)[i].hash == cache_views(kept@)[j].hash),
                forall|p: int| 0 <= p < n - rest@.len() && orig[p].expires_at > now_ms
                    ==> #[trigger] cache_views(kept@).contains(orig[p]),
            decreases rest@.len(),
        {
            let ghost c = (n - rest@.len()) as int;
            let ghost before = cache_views(kept@);
            let e = rest.remove(0);
            assert(rest@ =~= rv.subrange(n - rest@.len(), n as int));
            assert(cache_views(rv)[c] == orig[c]);
            if e.expires_at > now_ms {
                kept.push(e);
                let ghost after = cache_views(kept@);
                assert(after =~= before.push(orig[c]));
                assert forall|q: int| 0 <= q < kept@.len() implies exists|p: int| 0 <= p < n - rest@.len()
                    && #[trigger] cache_views(kept@)[q] == orig[p] by {
                    if q < before.len() {
                        assert(after[q] == before[q]);
                    } else {
                        assert(after[q] == orig[c]);
                    }
                }
                assert forall|i: int, j: int| 0 <= i < j < kept@.len() implies
                    !((#[trigger] cache_views(kept@)[i]).name == (#[trigger] cache_views(kept@)[j]).name
                    && cache_views(kept@)[i].hash == cache_views(kept@)[j].hash) by {
                    if j == before.len() {
                        assert(after[i] == before[i]);
                        let p = choose|p: int| 0 <= p < c && #[trigger] before[i] == orig[p];
                        assert(!((orig[p]).name == (orig[c]).name && orig[p].hash == orig[c].hash));
                    } else {
                        assert(after[i] == before[i] && after[j] == before[j]);
                    }
                }
                assert forall|p: int| 0 <= p < n - rest@.len() && orig[p].expires_at > now_ms
                    implies #[trigger] cache_views(kept@).contains(orig[p]) by {
                    if p < c {
                        assert(before.contains(orig[p]));
                        let q = choose|q: int| 0 <= q < before.len() && before[q] == orig[p];
                        assert(after[q] == orig[p]);
                    } else {
                        assert(after[before.len() as int] == orig[p]);
                    }
                }
            } else {
                dropped = dropped + 1;
            }
        }
        self.entries = kept;
        dropped
    }
}

// ─── Running the resolvers ──────────────────────────────────────────────────

/// A resolver query in flight: the cache key its result goes under (when it caches), and
/// what its reply has shown so far.
pub struct AwaitedQuery {
    pub cache_key: Option<(String, u64)>,
    pub reply: QueryReply,
}

/// Where a resolver run stands: the next resolver, the context so far, and the query whose
/// reply is awaited.
pub struct ResolveState {
    pub next: usize,
    pub context: ContextMap,
    pub awaiting: Option<AwaitedQuery>,
}

/// What happened: the caller asks to go on, or an upstream message arrived.
pub enum ResolveEvent {
    Advance,
    Reply(BackendMessage),
}

/// What to do next.
pub enum ResolveAction {
    /// One resolver is done without a query: advance again.
    Next,
    /// Send this SQL as a simple query, then hand over the reply's messages.
    SendQuery(String),
    /// Read the next upstream message.
    Wait,
    /// Every resolver has run.
    Done,
    /// The run failed: the connection ends with `XX000`.
    Fail(ResolveError),
}

/// The values of the resolver parameters `ps` in `ctx` (when all are known).
pub open spec fn param_values(ps: Seq<Seq<char>>, ctx: Seq<(Seq<char>, Option<Seq<char>>)>) -> Seq<Option<Seq<char>>> {
    ps.map_values(|p: Seq<char>| match lookup_first(ctx, p) {
        Some(v) => v,
        None => None,
    })
}

/// The context after publishing a resolver result: the row's columns, or every output
/// absent when there was no row.
pub open spec fn published(ctx: Seq<(Seq<char>, Option<Seq<char>>)>, def: ResolverDef, row: Option<Seq<(Seq<char>, Seq<char>)>>)
    -> Seq<(Seq<char>, Option<Seq<char>>)>
{
    match row {
        Some(rw) => publish_row(ctx, inject_pairs(def), rw, def.inject@.len() as int),
        None => publish_absent(ctx, inject_pairs(def), def.inject@.len() as int),
    }
}

/// When a result cached at `now` for `ttl` seconds expires: `now + ttl * 1000`, saturating.
pub open spec fn expiry(now: u64, ttl: u64) -> u64 {
    if now as int + ttl as int * 1000 > u64::MAX as int { u64::MAX } else { (now + ttl * 1000) as u64 }
}

fn expiry_exec(now: u64, ttl: u64) -> (r: u64)
    ensures
        r == expiry(now, ttl),
{
    if ttl > u64::MAX / 1000 {
        assert(ttl as int * 1000 > u64::MAX as int) by (nonlinear_arith)
            requires ttl > u64::MAX / 1000;
        u64::MAX
    } else {
        assert(ttl as int * 1000 <= u64::MAX as int) by (nonlinear_arith)
            requires ttl <= u64::MAX / 1000;
        now.saturating_add(ttl * 1000)
    }
}

/// A live cache entry for `(name, hash)` at `now`.
pub open spec fn live_entry(c: Seq<CacheEntryView>, i: int, name: Seq<char>, hash: u64, now: u64) -> bool {
    0 <= i < c.len() && c[i].name == name && c[i].hash == hash && c[i].expires_at > now
}

/// One step of running the resolvers in order against the upstream session.
/// On `Advance`, the next resolver is looked at: an unknown parameter fails the run; an
/// absent parameter skips it and marks its outputs absent; with caching and a live cached
/// result, that result is published; otherwise its query, with the parameters substituted,
/// is to be sent. On `Reply`, the message goes to the awaited reply; when the reply is
/// complete its result is applied (a required resolver with no row fails) and, with caching,
/// stored until `now + cache_ttl` seconds.
pub fn resolve_step(defs: &[ResolverDef], cache: &mut ResolverCache, st: &mut ResolveState, ev: ResolveEvent, now_ms: u64)
    -> (r: ResolveAction)
    requires
        old(cache).wf(),
        old(st).next <= defs@.len(),
        old(st).awaiting is Some ==> old(st).next < defs@.len(),
    ensures
        final(cache).wf(),
        final(st).next <= defs@.len(),
        final(st).awaiting is Some ==> final(st).next < defs@.len(),
        ({
            let i = old(st).next as int;
            let ctx = old(st).context@;
            let ctx2 = final(st).context@;
            match ev {
                ResolveEvent::Advance => {
                    &&& old(st).awaiting is Some ==> r is Wait && final(cache)@ == old(cache)@
                    &&& (old(st).awaiting is None && i == defs@.len()) ==> r is Done && ctx2 == ctx
                    &&& (old(st).awaiting is None && i < defs@.len()) ==> {
                        let d = defs@[i];
                        let ps = param_names(d);
                        let vals = param_values(ps, ctx);
                        let hash = input_hash(vals);
                        &&& final(cache)@ == old(cache)@
                        &&& some_unknown(ps, ctx, ps.len() as int) ==> (r matches ResolveAction::Fail(ResolveError::UnknownParam(_)))
                        &&& (!some_unknown(ps, ctx, ps.len() as int) && some_absent(ps, ctx, ps.len() as int)) ==>
                            (r is Next && ctx2 == publish_absent(ctx, inject_pairs(d), d.inject@.len() as int)
                            && final(st).next == i + 1 && final(st).awaiting is None)
                        &&& (!some_unknown(ps, ctx, ps.len() as int) && !some_absent(ps, ctx, ps.len() as int)
                            && d.cache_ttl > 0 && exists|j: int| live_entry(old(cache)@, j, d.name@, hash, now_ms)) ==>
                            (r is Next && final(st).next == i + 1 && final(st).awaiting is None
                            && exists|j: int| live_entry(old(cache)@, j, d.name@, hash, now_ms)
                                && ctx2 == published(ctx, d, old(cache)@[j].row))
                        &&& (!some_unknown(ps, ctx, ps.len() as int) && !some_absent(ps, ctx, ps.len() as int)
                            && !(d.cache_ttl > 0 && exists|j: int| live_entry(old(cache)@, j, d.name@, hash, now_ms))) ==>
                            (r matches ResolveAction::SendQuery(sql) && sql@ == substituted(d.query@, vals, vals.len())
                            && final(st).next == i && ctx2 == ctx && final(st).awaiting is Some
                            && (d.cache_ttl > 0 ==> (final(st).awaiting->Some_0.cache_key is Some
                                && final(st).awaiting->Some_0.cache_key->Some_0.0@ == d.name@
                                && final(st).awaiting->Some_0.cache_key->Some_0.1 == hash))
                            && (d.cache_ttl == 0 ==> final(st).awaiting->Some_0.cache_key is None))
                    }
                },
                ResolveEvent::Reply(msg) => {
                    &&& old(st).awaiting is None ==> r is Wait && final(cache)@ == old(cache)@ && ctx2 == ctx
                    &&& (old(st).awaiting is Some && msg.msg_type != MSG_READY_FOR_QUERY) ==>
                        r is Wait && final(cache)@ == old(cache)@ && ctx2 == ctx && final(st).next == i
                    &&& (old(st).awaiting is Some && msg.msg_type == MSG_READY_FOR_QUERY) ==> {
                        let a = old(st).awaiting->Some_0;
                        let d = defs@[i];
                        let row = match a.reply.first_row { Some(t) => Some(t@), None => None::<Seq<(Seq<char>, Seq<char>)>> };
                        &&& a.reply.error is Some ==> (r matches ResolveAction::Fail(ResolveError::QueryFailed(_)))
                        &&& (a.reply.error is None && row is None && d.required) ==>
                            (r matches ResolveAction::Fail(ResolveError::RequiredEmpty(_)))
                        &&& (a.reply.error is None && !(row is None && d.required)) ==> {
                            &&& r is Next
                            &&& final(st).next == i + 1
                            &&& final(st).awaiting is None
                            &&& ctx2 == published(ctx, d, row)
                            &&& (a.cache_key is Some ==> exists|j: int| 0 <= j < final(cache)@.len()
                                && final(cache)@[j].name == a.cache_key->Some_0.0@ && final(cache)@[j].hash == a.cache_key->Some_0.1
                                && final(cache)@[j].row == row && final(cache)@[j].expires_at == expiry(now_ms, d.cache_ttl))
                            &&& (a.cache_key is None ==> final(cache)@ == old(cache)@)
                        }
                    }
                },
            }
        }),
{
    match ev {
        ResolveEvent::Advance => {
            if st.awaiting.is_some() {
                return ResolveAction::Wait;
            }
            if st.next >= defs.len() {
                return ResolveAction::Done;
            }
            let d = &defs[st.next];
            match resolver_inputs(d, &st.context) {
                ResolverInputs::UnknownParam(p) => ResolveAction::Fail(ResolveError::UnknownParam(p)),
                ResolverInputs::Skip => {
                    publish_skipped(d, &mut st.context);
                    st.next = st.next + 1;
                    ResolveAction::Next
                },
                ResolverInputs::Ready(vs) => {
                    let ghost ps = param_names(*d);
                    let ghost ctx = st.context@;
                    assert(opt_texts(vs@) =~= param_values(ps, ctx)) by {
                        assert forall|j: int| 0 <= j < ps.len() implies opt_texts(vs@)[j] == param_values(ps, ctx)[j] by {
                            assert(lookup_first(ctx, ps[j]) == Some(opt_texts(vs@)[j]));
                        }
                    }
                    let sql = substitute_params(d.query.as_str(), vs.as_slice());
                    if d.cache_ttl > 0 {
                        let (name, hash) = make_cache_key(d.name.as_str(), vs.as_slice());
                        match cache.lookup(name.as_str(), hash, now_ms) {
                            Some(row) => {
                                proof {
                                    let j = choose|j: int| 0 <= j < cache@.len() && cache@[j].name == name@
                                        && cache@[j].hash == hash && cache@[j].expires_at > now_ms && cache@[j].row == row_view(row);
                                    assert(live_entry(cache@, j, d.name@, hash, now_ms));
                                }
                                publish_result(d, &mut st.context, row.as_ref());
                                proof {
                                    let j = choose|j: int| 0 <= j < cache@.len() && cache@[j].name == name@
                                        && cache@[j].hash == hash && cache@[j].expires_at > now_ms && cache@[j].row == row_view(row);
                                    assert(st.context@ == published(ctx, *d, cache@[j].row));
                                }
                                st.next = st.next + 1;
                                return ResolveAction::Next;
                            },
                            None => {
                                st.awaiting = Some(AwaitedQuery { cache_key: Some((name, hash)), reply: QueryReply::new() });
                            },
                        }
                    } else {
                        st.awaiting = Some(AwaitedQuery { cache_key: None, reply: QueryReply::new() });
                    }
                    ResolveAction::SendQuery(sql)
                },
            }
        },
        ResolveEvent::Reply(msg) => {
            let mut taken: Option<AwaitedQuery> = None;
            std::mem::swap(&mut taken, &mut st.awaiting);
            let mut a = match taken {
                Some(a) => a,
                None => return ResolveAction::Wait,
            };
            let ghost a0 = a;
            match a.reply.on_message(&msg) {
                ReplyStep::Continue => {
                    st.awaiting = Some(a);
                    ResolveAction::Wait
                },
                ReplyStep::Failed(e) => ResolveAction::Fail(ResolveError::QueryFailed(e)),
                ReplyStep::Done(row) => {
                    let d = &defs[st.next];
                    let ghost rv = row_view(row);
                    assert(rv == match a0.reply.first_row { Some(t) => Some(t@), None => None::<Seq<(Seq<char>, Seq<char>)>> });
                    match apply_query_result(d, &mut st.context, row.as_ref()) {
                        Err(e) => ResolveAction::Fail(e),
                        Ok(()) => {
                            match a.cache_key {
                                Some((name, hash)) => {
                                    let exp = expiry_exec(now_ms, d.cache_ttl);
                                    cache.store(name, hash, row, exp);
                                },
                                None => {},
                            }
                            st.next = st.next + 1;
                            ResolveAction::Next
                        },
                    }
                },
            }
        },
    }
}

// ─── Handshake sequencing ───────────────────────────────────────────────────

/// The phases of a tenant session's handshake. Passthrough runs RelayAuth, PostAuthDrain,
/// Resolving, Injecting; session pooling runs ClientAuth, Checkout, Reset, Resolving,
/// Injecting.
#[derive(Debug, Clone, Copy, PartialEq, Eq, Structural)]
pub enum HandshakePhase {
    RelayAuth,
    PostAuthDrain,
    ClientAuth,
    Checkout,
    Reset,
    Resolving,
    Injecting,
    Ready,
    Closed,
}

/// The phase, and whether a pooled session is checked out.
#[derive(Debug, Clone, Copy, PartialEq, Eq, Structural)]
pub struct HandshakeState {
    pub phase: HandshakePhase,
    pub checked_out: bool,
}

/// Why a handshake ends with an error sent to the client.
#[derive(Debug, Clone, Copy, PartialEq, Eq, Structural)]
pub enum FatalCode {
    /// `28P01`: the client's pool password was wrong or missing.
    AuthFailed,
    /// `53300`: no pooled session could be had in time.
    PoolExhausted,
    /// `XX000`: reset, resolver or internal failure.
    Internal,
    /// `08006`: the handshake deadline passed.
    Timeout,
}

impl FatalCode {
    /// The SQLSTATE sent to the client.
    pub fn sqlstate(&self) -> (r: String)
        ensures
            *self == FatalCode::AuthFailed ==> r@ == "28P01"@,
            *self == FatalCode::PoolExhausted ==> r@ == "53300"@,
            *self == FatalCode::Internal ==> r@ == "XX000"@,
            *self == FatalCode::Timeout ==> r@ == "08006"@,
    {
        match self {
            FatalCode::AuthFailed => String::from_str("28P01"),
            FatalCode::PoolExhausted => String::from_str("53300"),
            FatalCode::Internal => String::from_str("XX000"),
            FatalCode::Timeout => String::from_str("08006"),
        }
    }
}

/// What happened during the handshake.
pub enum HandshakeEvent {
    /// A message from the upstream server.
    Upstream(BackendMessage),
    /// Pooled mode: whether the client's password matched (false also when it left).
    ClientPassword(bool),
    /// Pooled mode: whether a session was checked out before the deadline.
    CheckedOut(bool),
    /// Whether the resolvers ran to the end.
    Resolved(bool),
    /// The handshake deadline passed.
    TimedOut,
    /// A read or write failed.
    Lost,
}

/// What to do.
#[derive(Debug, Clone, Copy, PartialEq, Eq, Structural)]
pub enum HandshakeAction {
    /// Pass the upstream message to the client.
    Forward,
    /// Pass the upstream message to the client, then one client reply to the server.
    ForwardAndRelayReply,
    /// Keep the upstream ReadyForQuery for the end, and run the resolvers.
    HoldReadyAndResolve,
    /// Check a session out of the pool.
    Checkout,
    /// Send `DISCARD ALL;`.
    SendReset,
    /// Run the resolvers.
    Resolve,
    /// Send the `SET` batch.
    SendInjection,
    /// Injection done: hand the client the held ReadyForQuery (passthrough) or the
    /// pooled greeting, then pipe.
    Complete,
    /// Read on.
    Wait,
    /// Pass the upstream ErrorResponse to the client and close; discard the session if set.
    ForwardAndClose { discard: bool },
    /// Send FATAL with this code and close; discard the session if set.
    Fatal { code: FatalCode, discard: bool },
    /// Close without a message; discard the session if set.
    Close { discard: bool },
}

impl HandshakeAction {
    /// The action ends the session.
    pub open spec fn ends(self) -> bool {
        self is ForwardAndClose || self is Fatal || self is Close
    }

    /// The action ends the session and discards its pooled session.
    pub open spec fn discards(self) -> bool {
        match self {
            HandshakeAction::ForwardAndClose { discard } => discard,
            HandshakeAction::Fatal { discard, .. } => discard,
            HandshakeAction::Close { discard } => discard,
            _ => false,
        }
    }
}

/// The first handshake state: client authentication when pooling, else the auth relay.
pub fn handshake_start(pooled: bool) -> (r: HandshakeState)
    ensures
        r.phase == (if pooled { HandshakePhase::ClientAuth } else { HandshakePhase::RelayAuth }),
        !r.checked_out,
{
    HandshakeState { phase: if pooled { HandshakePhase::ClientAuth } else { HandshakePhase::RelayAuth }, checked_out: false }
}

/// One step of the handshake.
pub fn handshake_step(st: HandshakeState, ev: &HandshakeEvent) -> (r: (HandshakeState, HandshakeAction))
    ensures
        // Every way out of the handshake after a checkout discards the session.
        r.1.ends() ==> r.0.phase == HandshakePhase::Closed && r.1.discards() == st.checked_out,
        !r.1.ends() ==> r.0.checked_out == (st.checked_out || r.1 == HandshakeAction::SendReset),
        st.phase == HandshakePhase::Closed || st.phase == HandshakePhase::Ready ==> r == (st, HandshakeAction::Wait),
        st.phase != HandshakePhase::Closed && st.phase != HandshakePhase::Ready ==> match *ev {
            HandshakeEvent::TimedOut => r.1 == HandshakeAction::Fatal { code: FatalCode::Timeout, discard: st.checked_out },
            HandshakeEvent::Lost => r.1 == HandshakeAction::Close { discard: st.checked_out },
            HandshakeEvent::Upstream(msg) => match st.phase {
                HandshakePhase::RelayAuth => {
                    &&& msg.auth_code() == Some((AUTH_OK as int)) ==> r == (HandshakeState { phase: HandshakePhase::PostAuthDrain, ..st }, HandshakeAction::Forward)
                    &&& msg.msg_type == MSG_ERROR_RESPONSE ==> r.1 == HandshakeAction::ForwardAndClose { discard: st.checked_out }
                    &&& (msg.msg_type != MSG_ERROR_RESPONSE && msg.auth_code() != Some((AUTH_OK as int))) ==> r.0 == st
                        && (msg.auth_code() matches Some(c) && c != AUTH_SASL_FINAL ==> r.1 == HandshakeAction::ForwardAndRelayReply)
                        && (!(msg.auth_code() matches Some(c) && c != AUTH_SASL_FINAL) ==> r.1 == HandshakeAction::Forward)
                },
                HandshakePhase::PostAuthDrain => {
                    &&& msg.msg_type == MSG_READY_FOR_QUERY ==> r == (HandshakeState { phase: HandshakePhase::Resolving, ..st }, HandshakeAction::HoldReadyAndResolve)
                    &&& msg.msg_type != MSG_READY_FOR_QUERY ==> r == (st, HandshakeAction::Forward)
                },
                HandshakePhase::Reset => {
                    &&& msg.msg_type == MSG_ERROR_RESPONSE ==> r.1 == HandshakeAction::Fatal { code: FatalCode::Internal, discard: st.checked_out }
                    &&& msg.msg_type == MSG_READY_FOR_QUERY ==> r == (HandshakeState { phase: HandshakePhase::Resolving, ..st }, HandshakeAction::Resolve)
                    &&& (msg.msg_type != MSG_ERROR_RESPONSE && msg.msg_type != MSG_READY_FOR_QUERY) ==> r == (st, HandshakeAction::Wait)
                },
                HandshakePhase::Injecting => {
                    &&& msg.msg_type == MSG_ERROR_RESPONSE ==> r.1 == HandshakeAction::ForwardAndClose { discard: st.checked_out }
                    &&& msg.msg_type == MSG_READY_FOR_QUERY ==> r == (HandshakeState { phase: HandshakePhase::Ready, ..st }, HandshakeAction::Complete)
                    &&& msg.msg_type == MSG_PARAMETER_STATUS ==> r == (st, HandshakeAction::Forward)
                    &&& (msg.msg_type != MSG_ERROR_RESPONSE && msg.msg_type != MSG_READY_FOR_QUERY
                        && msg.msg_type != MSG_PARAMETER_STATUS) ==> r == (st, HandshakeAction::Wait)
                },
                _ => r == (st, HandshakeAction::Wait),
            },
            HandshakeEvent::ClientPassword(ok) => st.phase == HandshakePhase::ClientAuth ==> (
                (ok ==> r == (HandshakeState { phase: HandshakePhase::Checkout, ..st }, HandshakeAction::Checkout))
                && (!ok ==> r.1 == HandshakeAction::Fatal { code: FatalCode::AuthFailed, discard: st.checked_out })),
            HandshakeEvent::CheckedOut(ok) => st.phase == HandshakePhase::Checkout ==> (
                (ok ==> r == (HandshakeState { phase: HandshakePhase::Reset, checked_out: true }, HandshakeAction::SendReset))
                && (!ok ==> r.1 == HandshakeAction::Fatal { code: FatalCode::PoolExhausted, discard: st.checked_out })),
            HandshakeEvent::Resolved(ok) => st.phase == HandshakePhase::Resolving ==> (
                (ok ==> r == (HandshakeState { phase: HandshakePhase::Injecting, ..st }, HandshakeAction::SendInjection))
                && (!ok ==> r.1 == HandshakeAction::Fatal { code: FatalCode::Internal, discard: st.checked_out })),
        },
{
    let closed = HandshakeState { phase: HandshakePhase::Closed, checked_out: st.checked_out };
    if st.phase == HandshakePhase::Closed || st.phase == HandshakePhase::Ready {
        return (st, HandshakeAction::Wait);
    }
    match ev {
        HandshakeEvent::TimedOut => (closed, HandshakeAction::Fatal { code: FatalCode::Timeout, discard: st.checked_out }),
        HandshakeEvent::Lost => (closed, HandshakeAction::Close { discard: st.checked_out }),
        HandshakeEvent::Upstream(msg) => match st.phase {
            HandshakePhase::RelayAuth => {
                if msg.is_auth_ok() {
                    (HandshakeState { phase: HandshakePhase::PostAuthDrain, ..st }, HandshakeAction::Forward)
                } else if msg.is_error_response() {
                    (closed, HandshakeAction::ForwardAndClose { discard: st.checked_out })
                } else if msg.is_auth_challenge() {
                    (st, HandshakeAction::ForwardAndRelayReply)
                } else {
                    (st, HandshakeAction::Forward)
                }
            },
            HandshakePhase::PostAuthDrain => {
                if msg.is_ready_for_query() {
                    (HandshakeState { phase: HandshakePhase::Resolving, ..st }, HandshakeAction::HoldReadyAndResolve)
                } else {
                    (st, HandshakeAction::Forward)
                }
            },
            HandshakePhase::Reset => match batch_step(msg) {
                BatchStep::Failed => (closed, HandshakeAction::Fatal { code: FatalCode::Internal, discard: st.checked_out }),
                BatchStep::Done => (HandshakeState { phase: HandshakePhase::Resolving, ..st }, HandshakeAction::Resolve),
                _ => (st, HandshakeAction::Wait),
            },
            HandshakePhase::Injecting => match batch_step(msg) {
                BatchStep::Failed => (closed, HandshakeAction::ForwardAndClose { discard: st.checked_out }),
                BatchStep::Done => (HandshakeState { phase: HandshakePhase::Ready, ..st }, HandshakeAction::Complete),
                BatchStep::Forward => (st, HandshakeAction::Forward),
                BatchStep::Continue => (st, HandshakeAction::Wait),
            },
            _ => (st, HandshakeAction::Wait),
        },
        HandshakeEvent::ClientPassword(ok) => {
            if st.phase != HandshakePhase::ClientAuth {
                (st, HandshakeAction::Wait)
            } else if *ok {
                (HandshakeState { phase: HandshakePhase::Checkout, ..st }, HandshakeAction::Checkout)
            } else {
                (closed, HandshakeAction::Fatal { code: FatalCode::AuthFailed, discard: st.checked_out })
            }
        },
        HandshakeEvent::CheckedOut(ok) => {
            if st.phase != HandshakePhase::Checkout {
                (st, HandshakeAction::Wait)
            } else if *ok {
                (HandshakeState { phase: HandshakePhase::Reset, checked_out: true }, HandshakeAction::SendReset)
            } else {
                (closed, HandshakeAction::Fatal { code: FatalCode::PoolExhausted, discard: st.checked_out })
            }
        },
        HandshakeEvent::Resolved(ok) => {
            if st.phase != HandshakePhase::Resolving {
                (st, HandshakeAction::Wait)
            } else if *ok {
                (HandshakeState { phase: HandshakePhase::Injecting, ..st }, HandshakeAction::SendInjection)
            } else {
                (closed, HandshakeAction::Fatal { code: FatalCode::Internal, discard: st.checked_out })
            }
        },
    }
}

} // verus!
