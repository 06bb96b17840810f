//! Big-endian integers, NUL scanning and byte text, shared by the framers and builders.

use vstd::prelude::*;
use vstd::utf8::{valid_utf8, decode_utf8};

verus! {

/// The unsigned value of the four big-endian bytes of `b` at `at`.
pub open spec fn be_u32_at(b: Seq<u8>, at: int) -> int {
    b[at] as int * 16777216 + b[at + 1] as int * 65536 + b[at + 2] as int * 256 + b[at + 3] as int
}

/// The unsigned value of the two big-endian bytes of `b` at `at`.
pub open spec fn be_u16_at(b: Seq<u8>, at: int) -> int {
    b[at] as int * 256 + b[at + 1] as int
}

/// Four big-endian bytes of `x`, for `0 <= x < 2^32`.
pub open spec fn be32(x: int) -> Seq<u8> {
    seq![
        ((x / 16777216) % 256) as u8,
        ((x / 65536) % 256) as u8,
        ((x / 256) % 256) as u8,
        (x % 256) as u8,
    ]
}

pub proof fn lemma_be32_round_trip(x: int)
    requires
        0 <= x < 4294967296,
    ensures
        be_u32_at(be32(x), 0) == x,
        be32(x).len() == 4,
{
    let b = be32(x);
    assert(b[0] as int == (x / 16777216) % 256);
    assert(b[1] as int == (x / 65536) % 256);
    assert(b[2] as int == (x / 256) % 256);
    assert(b[3] as int == x % 256);
    assert((x / 16777216) % 256 * 16777216 + (x / 65536) % 256 * 65536 + (x / 256) % 256 * 256
        + x % 256 == x) by (nonlinear_arith)
        requires
            0 <= x < 4294967296,
    ;
}

/// The index of the first NUL byte of `b` at or after `from`, if any.
pub open spec fn nul_from(b: Seq<u8>, from: int) -> Option<int>
    decreases b.len() - from,
{
    if from < 0 || from >= b.len() {
        None
    } else if b[from] == 0 {
        Some(from)
    } else {
        nul_from(b, from + 1)
    }
}

pub proof fn lemma_nul_from_bounds(b: Seq<u8>, from: int)
    requires
        0 <= from,
    ensures
        nul_from(b, from) matches Some(j) ==> from <= j < b.len() && b[j] == 0
            && forall|k: int| from <= k < j ==> b[k] != 0,
        nul_from(b, from) is None ==> forall|k: int| from <= k < b.len() ==> b[k] != 0,
    decreases b.len() - from,
{
    if from < b.len() && b[from] != 0 {
        lemma_nul_from_bounds(b, from + 1);
    }
}

/// Reads four big-endian bytes as an unsigned value.
pub fn read_u32_be(b: &[u8], at: usize) -> (r: u32)
    requires
        at + 4 <= b@.len(),
    ensures
        r as int == be_u32_at(b@, at as int),
{
    let r: u64 = (b[at] as u64) * 16777216 + (b[at + 1] as u64) * 65536 + (b[at + 2] as u64) * 256
        + (b[at + 3] as u64);
    r as u32
}

/// Reads two big-endian bytes as an unsigned value.
pub fn read_u16_be(b: &[u8], at: usize) -> (r: u16)
    requires
        at + 2 <= b@.len(),
    ensures
        r as int == be_u16_at(b@, at as int),
{
    let r: u32 = (b[at] as u32) * 256 + (b[at + 1] as u32);
    r as u16
}

/// Appends the four big-endian bytes of `x`.
pub fn push_u32_be(out: &mut Vec<u8>, x: u32)
    ensures
        final(out)@ == old(out)@ + be32(x as int),
{
    out.push(((x / 16777216) % 256) as u8);
    out.push(((x / 65536) % 256) as u8);
    out.push(((x / 256) % 256) as u8);
    out.push((x % 256) as u8);
    assert(final(out)@ =~= old(out)@ + be32(x as int));
}

/// Appends the bytes of `b`.
pub fn push_all(out: &mut Vec<u8>, b: &[u8])
    ensures
        final(out)@ == old(out)@ + b@,
{
    let ghost start = out@;
    let mut i: usize = 0;
    while i < b.len()
        invariant
            i <= b@.len(),
            out@ == start + b@.subrange(0, i as int),
        decreases b@.len() - i,
    {
        out.push(b[i]);
        assert(start + b@.subrange(0, i + 1) =~= start + b@.subrange(0, i as int) + seq![b@[i as int]]);
        i += 1;
    }
    assert(b@.subrange(0, b@.len() as int) =~= b@);
}

/// Copies `b[from..to]`.
pub fn copy_range(b: &[u8], from: usize, to: usize) -> (r: Vec<u8>)
    requires
        from <= to <= b@.len(),
    ensures
        r@ == b@.subrange(from as int, to as int),
{
    let mut r: Vec<u8> = Vec::new();
    let mut i: usize = from;
    while i < to
        invariant
            from <= i <= to,
            to <= b@.len(),
            r@ == b@.subrange(from as int, i as int),
        decreases to - i,
    {
        r.push(b[i]);
        assert(b@.subrange(from as int, i + 1) =~= b@.subrange(from as int, i as int).push(b@[i as int]));
        i += 1;
    }
    r
}

/// Removes the first `n` bytes of `buf`.
pub fn consume_front(buf: &mut Vec<u8>, n: usize)
    requires
        n <= old(buf)@.len(),
    ensures
        final(buf)@ == old(buf)@.subrange(n as int, old(buf)@.len() as int),
{
    let rest = copy_range(buf.as_slice(), n, buf.len());
    *buf = rest;
}

/// Finds the first NUL byte at or after `from`.
pub fn find_nul(b: &[u8], from: usize) -> (r: Option<usize>)
    ensures
        r matches Some(j) ==> nul_from(b@, from as int) == Some(j as int),
        r is None ==> nul_from(b@, from as int) is None,
{
    let mut j: usize = from;
    while j < b.len()
        invariant
            from <= j,
            nul_from(b@, from as int) == nul_from(b@, j as int),
        decreases b@.len() - j,
    {
        if b[j] == 0 {
            return Some(j);
        }
        j += 1;
    }
    None
}

/// What `String::from_utf8_lossy` makes of a byte sequence that is not valid UTF-8.
pub uninterp spec fn lossy_text(b: Seq<u8>) -> Seq<char>;

/// The text of a byte sequence: its decoded characters when it is valid UTF-8.
pub open spec fn bytes_text(b: Seq<u8>) -> Seq<char> {
    if valid_utf8(b) { decode_utf8(b) } else { lossy_text(b) }
}

/// Relies on `String::from_utf8_lossy`: valid UTF-8 is decoded as it is; other input
/// gets replacement characters.
#[verifier::external_body]
pub fn text_of_bytes(b: &[u8]) -> (r: String)
    ensures
        valid_utf8(b@) ==> r@ == decode_utf8(b@),
        !valid_utf8(b@) ==> r@ == lossy_text(b@),
{
    String::from_utf8_lossy(b).to_string()
}

} // verus!
