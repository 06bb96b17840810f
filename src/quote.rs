//! SQL quoting: the only places where text is spliced into SQL.

use vstd::prelude::*;
use crate::text::{chars_of, string_of};

verus! {

/// Why a value could not be quoted.
#[derive(Debug, Clone, Copy, PartialEq, Eq)]
pub enum QuoteError {
    /// A tenant value held a character outside `[A-Za-z0-9_.-]`.
    InvalidLiteral,
    /// An identifier held a character outside `[A-Za-z0-9_]`.
    InvalidIdentifier,
}

pub open spec fn is_ascii_alnum(c: char) -> bool {
    ('a' <= c && c <= 'z') || ('A' <= c && c <= 'Z') || ('0' <= c && c <= '9')
}

/// Characters allowed in a tenant literal.
pub open spec fn is_literal_char(c: char) -> bool {
    is_ascii_alnum(c) || c == '_' || c == '-' || c == '.'
}

/// Characters allowed in an identifier.
pub open spec fn is_ident_char(c: char) -> bool {
    is_ascii_alnum(c) || c == '_'
}

pub open spec fn all_literal_chars(s: Seq<char>) -> bool {
    forall|i: int| 0 <= i < s.len() ==> is_literal_char(#[trigger] s[i])
}

pub open spec fn all_ident_chars(s: Seq<char>) -> bool {
    forall|i: int| 0 <= i < s.len() ==> is_ident_char(#[trigger] s[i])
}

/// `s` with every occurrence of `q` written twice.
pub open spec fn doubled(s: Seq<char>, q: char) -> Seq<char>
    decreases s.len(),
{
    if s.len() == 0 {
        Seq::empty()
    } else {
        let last = s.last();
        doubled(s.drop_last(), q) + (if last == q { seq![q, q] } else { seq![last] })
    }
}

/// `q`, then `s` with `q` doubled, then `q`.
pub open spec fn enclosed(s: Seq<char>, q: char) -> Seq<char> {
    seq![q] + doubled(s, q) + seq![q]
}

fn is_ascii_alnum_exec(c: char) -> (r: bool)
    ensures
        r == is_ascii_alnum(c),
{
    ('a' <= c && c <= 'z') || ('A' <= c && c <= 'Z') || ('0' <= c && c <= '9')
}

/// Encloses `s` in `q`, doubling every `q` inside.
fn enclose(s: &Vec<char>, q: char) -> (r: Vec<char>)
    ensures
        r@ == enclosed(s@, q),
{
    let mut out: Vec<char> = Vec::new();
    out.push(q);
    let mut i: usize = 0;
    while i < s.len()
        invariant
            i <= s@.len(),
            out@ == seq![q] + doubled(s@.subrange(0, i as int), q),
        decreases s@.len() - i,
    {
        let c = s[i];
        out.push(c);
        if c == q {
            out.push(q);
        }
        proof {
            assert(s@.subrange(0, i + 1).drop_last() =~= s@.subrange(0, i as int));
        }
        i += 1;
    }
    out.push(q);
    proof {
        assert(s@.subrange(0, s@.len() as int) =~= s@);
    }
    out
}

/// Quotes a tenant-supplied value as a SQL literal. Only `[A-Za-z0-9_.-]` is accepted.
pub fn escape_literal(value: &str) -> (r: Result<String, QuoteError>)
    ensures
        r is Ok <==> all_literal_chars(value@),
        r is Ok ==> r->Ok_0@ == enclosed(value@, '\''),
        r is Err ==> r->Err_0 == QuoteError::InvalidLiteral,
{
    let cs = chars_of(value);
    let mut i: usize = 0;
    while i < cs.len()
        invariant
            i <= cs@.len(),
            cs@ == value@,
            forall|j: int| 0 <= j < i ==> is_literal_char(#[trigger] cs@[j]),
        decreases cs@.len() - i,
    {
        let c = cs[i];
        if !(is_ascii_alnum_exec(c) || c == '_' || c == '-' || c == '.') {
            return Err(QuoteError::InvalidLiteral);
        }
        i += 1;
    }
    let q = enclose(&cs, '\'');
    Ok(string_of(q.as_slice()))
}

/// Quotes any value as a SQL literal for a `SET` statement, doubling single quotes.
pub fn escape_set_value(value: &str) -> (r: String)
    ensures
        r@ == enclosed(value@, '\''),
{
    let cs = chars_of(value);
    let q = enclose(&cs, '\'');
    string_of(q.as_slice())
}

/// Quotes an identifier in double quotes. Only `[A-Za-z0-9_]` is accepted.
pub fn quote_ident(value: &str) -> (r: Result<String, QuoteError>)
    ensures
        r is Ok <==> all_ident_chars(value@),
        r is Ok ==> r->Ok_0@ == enclosed(value@, '"'),
        r is Err ==> r->Err_0 == QuoteError::InvalidIdentifier,
{
    let cs = chars_of(value);
    let mut i: usize = 0;
    while i < cs.len()
        invariant
            i <= cs@.len(),
            cs@ == value@,
            forall|j: int| 0 <= j < i ==> is_ident_char(#[trigger] cs@[j]),
        decreases cs@.len() - i,
    {
        let c = cs[i];
        if !(is_ascii_alnum_exec(c) || c == '_') {
            return Err(QuoteError::InvalidIdentifier);
        }
        i += 1;
    }
    let q = enclose(&cs, '"');
    Ok(string_of(q.as_slice()))
}

} // verus!
