//! PostgreSQL v3 framing: the startup framer, the message framer, and the message builders.
//!
//! Buffers are sliding read windows: a framer consumes bytes only when a whole
//! message is present and leaves the buffer untouched otherwise.

use vstd::prelude::*;
use vstd::utf8::{encode_utf8, decode_utf8, valid_utf8, encode_utf8_decode_utf8, encode_utf8_valid_utf8, is_ascii_chars, is_ascii_chars_encode_utf8};
use vstd::string::StringSliceAdditionalSpecFns;
use crate::text::{same_text, chars_of, string_of, TextMap, has_key, add_first};
use crate::wire::{
    be_u32_at, be32, lemma_be32_round_trip, nul_from, push_u32_be, push_all, lemma_nul_from_bounds, bytes_text, read_u32_be, copy_range, consume_front,
    find_nul, text_of_bytes,
};

verus! {

/// Protocol version 3.0.
pub const PROTOCOL_VERSION_30: u32 = 196608;

/// SSLRequest code.
pub const SSL_REQUEST_CODE: u32 = 80877103;

/// CancelRequest code.
pub const CANCEL_REQUEST_CODE: u32 = 80877102;

/// Smallest and largest accepted startup length.
pub const STARTUP_MIN_LEN: u32 = 8;
pub const STARTUP_MAX_LEN: u32 = 10240;

/// The single byte that denies an SSLRequest.
pub const SSL_DENY: u8 = 78;

pub const MSG_AUTHENTICATION: u8 = 82;
pub const MSG_PARAMETER_STATUS: u8 = 83;
pub const MSG_BACKEND_KEY_DATA: u8 = 75;
pub const MSG_READY_FOR_QUERY: u8 = 90;
pub const MSG_COMMAND_COMPLETE: u8 = 67;
pub const MSG_ERROR_RESPONSE: u8 = 69;
pub const MSG_ROW_DESCRIPTION: u8 = 84;
pub const MSG_DATA_ROW: u8 = 68;
pub const MSG_EMPTY_QUERY_RESPONSE: u8 = 73;
pub const MSG_QUERY: u8 = 81;
pub const MSG_PASSWORD: u8 = 112;
pub const MSG_TERMINATE: u8 = 88;

pub const AUTH_OK: u32 = 0;
pub const AUTH_CLEARTEXT_PASSWORD: u32 = 3;
pub const AUTH_MD5_PASSWORD: u32 = 5;
pub const AUTH_SASL: u32 = 10;
pub const AUTH_SASL_CONTINUE: u32 = 11;
pub const AUTH_SASL_FINAL: u32 = 12;

/// Largest length that a length field may carry (it is a signed 32-bit value).
pub const MAX_FRAME_LEN: u32 = 2147483647;

// ─── Startup framer ─────────────────────────────────────────────────────────

/// What the client sent as its first message.
pub enum StartupType {
    /// The client asks to negotiate TLS.
    SslRequest,
    /// The client asks to cancel a query.
    CancelRequest,
    /// An ordinary startup message.
    Startup(StartupMessage),
}

/// A parsed startup message.
pub struct StartupMessage {
    pub params: TextMap,
}

/// The length of the startup message at the front of `b`, if all of it is there.
pub open spec fn startup_frame_len(b: Seq<u8>) -> Option<int> {
    if b.len() >= 8 && 8 <= be_u32_at(b, 0) <= 10240 && b.len() >= be_u32_at(b, 0) {
        Some(be_u32_at(b, 0))
    } else {
        None
    }
}

/// The parameters read from the startup message `m`, from offset `off` on, added to `acc`.
pub open spec fn params_from(m: Seq<u8>, off: int, acc: Seq<(Seq<char>, Seq<char>)>) -> Seq<(Seq<char>, Seq<char>)>
    decreases m.len() - off,
{
    if off < 0 || off >= m.len() - 1 {
        acc
    } else {
        match nul_from(m, off) {
            None => acc,
            Some(ke) => match nul_from(m, ke + 1) {
                None => acc,
                Some(ve) => if off <= ke && ke < ve && ve < m.len() {
                    params_from(
                        m,
                        ve + 1,
                        add_first(acc, bytes_text(m.subrange(off, ke)), bytes_text(m.subrange(ke + 1, ve))),
                    )
                } else {
                    acc
                },
            },
        }
    }
}

/// The parameters of the complete startup message `m`.
pub open spec fn startup_params_of(m: Seq<u8>) -> Seq<(Seq<char>, Seq<char>)> {
    params_from(m, 8, Seq::empty())
}

/// Reads a startup-phase message from the front of `buf`, consuming it on success.
pub fn try_read_startup(buf: &mut Vec<u8>) -> (r: Option<StartupType>)
    ensures
        startup_frame_len(old(buf)@) is None <==> r is None,
        r is None ==> final(buf)@ == old(buf)@,
        startup_frame_len(old(buf)@) matches Some(n) ==> {
            &&& final(buf)@ == old(buf)@.subrange(n, old(buf)@.len() as int)
            &&& be_u32_at(old(buf)@, 4) == SSL_REQUEST_CODE ==> (r is Some && r->Some_0 is SslRequest)
            &&& be_u32_at(old(buf)@, 4) == CANCEL_REQUEST_CODE ==> (r is Some && r->Some_0 is CancelRequest)
            &&& (be_u32_at(old(buf)@, 4) != SSL_REQUEST_CODE && be_u32_at(old(buf)@, 4) != CANCEL_REQUEST_CODE)
                ==> (r is Some && r->Some_0 is Startup
                && r->Some_0->Startup_0.params@ == startup_params_of(old(buf)@.subrange(0, n)))
        },
{
    if buf.len() < 8 {
        return None;
    }
    let length = read_u32_be(buf.as_slice(), 0);
    if length < STARTUP_MIN_LEN || length > STARTUP_MAX_LEN {
        return None;
    }
    let length = length as usize;
    if buf.len() < length {
        return None;
    }
    let msg = copy_range(buf.as_slice(), 0, length);
    consume_front(buf, length);
    let version = read_u32_be(msg.as_slice(), 4);
    assert(be_u32_at(msg@, 4) == be_u32_at(old(buf)@, 4));
    if version == SSL_REQUEST_CODE {
        return Some(StartupType::SslRequest);
    }
    if version == CANCEL_REQUEST_CODE {
        return Some(StartupType::CancelRequest);
    }
    let mut params = TextMap::new();
    let mut offset: usize = 8;
    assert(msg@ == old(buf)@.subrange(0, length as int));
    while offset < length - 1
        invariant
            msg@.len() == length,
            old(buf)@.len() >= length,
            msg@ == old(buf)@.subrange(0, length as int),
            startup_frame_len(old(buf)@) == Some(length as int),
            buf@ == old(buf)@.subrange(length as int, old(buf)@.len() as int),
            be_u32_at(old(buf)@, 4) == version,
            version != SSL_REQUEST_CODE && version != CANCEL_REQUEST_CODE,
            8 <= length <= 10240,
            8 <= offset,
            params_from(msg@, offset as int, params@) == startup_params_of(msg@),
        decreases length - offset,
    {
        let key_end = match find_nul(msg.as_slice(), offset) {
            Some(k) => k,
            None => {
                return Some(StartupType::Startup(StartupMessage { params }));
            },
        };
        proof { lemma_nul_from_bounds(msg@, offset as int); }
        let val_end = match find_nul(msg.as_slice(), key_end + 1) {
            Some(v) => v,
            None => {
                return Some(StartupType::Startup(StartupMessage { params }));
            },
        };
        proof { lemma_nul_from_bounds(msg@, key_end + 1); }
        let key = text_of_bytes(copy_range(msg.as_slice(), offset, key_end).as_slice());
        let value = text_of_bytes(copy_range(msg.as_slice(), key_end + 1, val_end).as_slice());
        params.insert_first(key, value);
        offset = val_end + 1;
    }
    Some(StartupType::Startup(StartupMessage { params }))
}

// ─── Message framer ─────────────────────────────────────────────────────────

/// A complete message: its type byte, its raw bytes for forwarding, and its payload.
pub struct BackendMessage {
    pub msg_type: u8,
    pub raw: Vec<u8>,
    pub payload: Vec<u8>,
}

/// The length (type byte included) of the message at the front of `b`, if all of it is
/// there and its length field is valid (at least 4, at most the signed 32-bit maximum).
pub open spec fn message_frame_len(b: Seq<u8>) -> Option<int> {
    if b.len() >= 5 && 4 <= be_u32_at(b, 1) <= MAX_FRAME_LEN && b.len() >= 1 + be_u32_at(b, 1) {
        Some(1 + be_u32_at(b, 1))
    } else {
        None
    }
}

/// Reads one typed message from the front of `buf`, consuming it on success.
pub fn try_read_backend_message(buf: &mut Vec<u8>) -> (r: Option<BackendMessage>)
    ensures
        message_frame_len(old(buf)@) is None <==> r is None,
        r is None ==> final(buf)@ == old(buf)@,
        message_frame_len(old(buf)@) matches Some(n) ==> {
            &&& r is Some
            &&& final(buf)@ == old(buf)@.subrange(n, old(buf)@.len() as int)
            &&& r->Some_0.msg_type == old(buf)@[0]
            &&& r->Some_0.raw@ == old(buf)@.subrange(0, n)
            &&& r->Some_0.payload@ == old(buf)@.subrange(5, n)
        },
{
    if buf.len() < 5 {
        return None;
    }
    let msg_type = buf[0];
    let length = read_u32_be(buf.as_slice(), 1);
    if length < 4 || length > MAX_FRAME_LEN {
        return None;
    }
    let total = 1 + length as usize;
    if buf.len() < total {
        return None;
    }
    let raw = copy_range(buf.as_slice(), 0, total);
    let payload = copy_range(buf.as_slice(), 5, total);
    consume_front(buf, total);
    Some(BackendMessage { msg_type, raw, payload })
}

/// `parts` joined with `sep` between neighbours.
pub open spec fn joined(parts: Seq<Seq<char>>, sep: Seq<char>) -> Seq<char>
    decreases parts.len(),
{
    if parts.len() == 0 {
        Seq::empty()
    } else if parts.len() == 1 {
        parts[0]
    } else {
        joined(parts.drop_last(), sep) + sep + parts.last()
    }
}

/// Joins texts with a separator.
pub fn join_texts(parts: &Vec<String>, sep: &str) -> (r: String)
    ensures
        r@ == joined(parts@.map_values(|p: String| p@), sep@),
{
    let ghost views = parts@.map_values(|p: String| p@);
    let sepc = chars_of(sep);
    let mut out: Vec<char> = Vec::new();
    let mut i: usize = 0;
    while i < parts.len()
        invariant
            i <= parts@.len(),
            views == parts@.map_values(|p: String| p@),
            sepc@ == sep@,
            out@ == joined(views.subrange(0, i as int), sep@),
        decreases parts@.len() - i,
    {
        if i > 0 {
            let mut k: usize = 0;
            let ghost before = out@;
            while k < sepc.len()
                invariant
                    k <= sepc@.len(),
                    out@ == before + sepc@.subrange(0, k as int),
                decreases sepc@.len() - k,
            {
                out.push(sepc[k]);
                assert(before + sepc@.subrange(0, k + 1) =~= before + sepc@.subrange(0, k as int) + seq![sepc@[k as int]]);
                k += 1;
            }
            assert(sepc@.subrange(0, sepc@.len() as int) =~= sepc@);
        }
        let pc = chars_of(parts[i].as_str());
        let mut k: usize = 0;
        let ghost before = out@;
        while k < pc.len()
            invariant
                k <= pc@.len(),
                out@ == before + pc@.subrange(0, k as int),
            decreases pc@.len() - k,
        {
            out.push(pc[k]);
            assert(before + pc@.subrange(0, k + 1) =~= before + pc@.subrange(0, k as int) + seq![pc@[k as int]]);
            k += 1;
        }
        assert(pc@.subrange(0, pc@.len() as int) =~= pc@);
        assert(views.subrange(0, i + 1).drop_last() =~= views.subrange(0, i as int));
        assert(views.subrange(0, i + 1).last() == views[i as int]);
        if i == 0 {
            assert(out@ =~= joined(views.subrange(0, 1), sep@));
        }
        i += 1;
    }
    assert(views.subrange(0, parts@.len() as int) =~= views);
    string_of(out.as_slice())
}

/// The message and detail texts of an ErrorResponse payload, read from `off` on:
/// the message goes in front, details after, in order.
pub open spec fn error_parts_from(d: Seq<u8>, off: int, parts: Seq<Seq<char>>) -> Seq<Seq<char>>
    decreases d.len() - off,
{
    if off < 0 || off >= d.len() || d[off] == 0 {
        parts
    } else {
        let end = match nul_from(d, off + 1) {
            Some(j) => j,
            None => d.len() as int,
        };
        let v = bytes_text(d.subrange(off + 1, end));
        let next = if d[off] == 77 {
            seq![v] + parts
        } else if d[off] == 68 {
            parts.push(v)
        } else {
            parts
        };
        if off < end && end < d.len() {
            error_parts_from(d, end + 1, next)
        } else {
            next
        }
    }
}

impl BackendMessage {
    /// The authentication subtype, for an Authentication message with at least four payload bytes.
    pub open spec fn auth_code(&self) -> Option<int> {
        if self.msg_type == MSG_AUTHENTICATION && self.payload@.len() >= 4 {
            Some(be_u32_at(self.payload@, 0))
        } else {
            None
        }
    }

    pub fn auth_subtype(&self) -> (r: Option<u32>)
        ensures
            r is None <==> self.auth_code() is None,
            r matches Some(c) ==> self.auth_code() == Some(c as int),
    {
        if self.msg_type != MSG_AUTHENTICATION || self.payload.len() < 4 {
            return None;
        }
        Some(read_u32_be(self.payload.as_slice(), 0))
    }

    /// AuthenticationOk.
    pub fn is_auth_ok(&self) -> (r: bool)
        ensures
            r == (self.auth_code() == Some(AUTH_OK as int)),
    {
        match self.auth_subtype() {
            Some(c) => c == AUTH_OK,
            None => false,
        }
    }

    /// An authentication request that expects a reply from the client: any subtype
    /// but AuthenticationOk and SASLFinal.
    pub fn is_auth_challenge(&self) -> (r: bool)
        ensures
            r == (self.auth_code() matches Some(c) && c != AUTH_OK && c != AUTH_SASL_FINAL),
    {
        match self.auth_subtype() {
            Some(c) => c != AUTH_OK && c != AUTH_SASL_FINAL,
            None => false,
        }
    }

    pub fn is_ready_for_query(&self) -> (r: bool)
        ensures
            r == (self.msg_type == MSG_READY_FOR_QUERY),
    {
        self.msg_type == MSG_READY_FOR_QUERY
    }

    pub fn is_error_response(&self) -> (r: bool)
        ensures
            r == (self.msg_type == MSG_ERROR_RESPONSE),
    {
        self.msg_type == MSG_ERROR_RESPONSE
    }

    pub fn is_parameter_status(&self) -> (r: bool)
        ensures
            r == (self.msg_type == MSG_PARAMETER_STATUS),
    {
        self.msg_type == MSG_PARAMETER_STATUS
    }

    pub fn is_backend_key_data(&self) -> (r: bool)
        ensures
            r == (self.msg_type == MSG_BACKEND_KEY_DATA),
    {
        self.msg_type == MSG_BACKEND_KEY_DATA
    }

    pub fn is_row_description(&self) -> (r: bool)
        ensures
            r == (self.msg_type == MSG_ROW_DESCRIPTION),
    {
        self.msg_type == MSG_ROW_DESCRIPTION
    }

    pub fn is_data_row(&self) -> (r: bool)
        ensures
            r == (self.msg_type == MSG_DATA_ROW),
    {
        self.msg_type == MSG_DATA_ROW
    }

    /// The readable text of an ErrorResponse: its message, then its details, joined by ": ".
    pub fn error_message(&self) -> (r: String)
        ensures
            self.msg_type != MSG_ERROR_RESPONSE ==> r@ == "not an error"@,
            self.msg_type == MSG_ERROR_RESPONSE ==> {
                let parts = error_parts_from(self.payload@, 0, Seq::empty());
                &&& parts.len() == 0 ==> r@ == "unknown error"@
                &&& parts.len() > 0 ==> r@ == joined(parts, ": "@)
            },
    {
        if self.msg_type != MSG_ERROR_RESPONSE {
            return String::from_str("not an error");
        }
        let data = &self.payload;
        let mut parts: Vec<String> = Vec::new();
        let mut offset: usize = 0;
        assert(parts@.map_values(|p: String| p@) =~= Seq::<Seq<char>>::empty());
        while offset < data.len()
            invariant
                offset <= data@.len(),
                error_parts_from(data@, offset as int, parts@.map_values(|p: String| p@))
                    == error_parts_from(data@, 0, Seq::empty()),
            ensures
                error_parts_from(data@, offset as int, parts@.map_values(|p: String| p@))
                    == error_parts_from(data@, 0, Seq::empty()),
                offset >= data@.len() || data@[offset as int] == 0,
            decreases data@.len() - offset,
        {
            let field_type = data[offset];
            if field_type == 0 {
                break;
            }
            let start = offset + 1;
            let str_end = match find_nul(data.as_slice(), start) {
                Some(j) => j,
                None => data.len(),
            };
            proof { lemma_nul_from_bounds(data@, start as int); }
            let value = text_of_bytes(copy_range(data.as_slice(), start, str_end).as_slice());
            let ghost before = parts@.map_values(|p: String| p@);
            if field_type == 77 {
                parts.insert(0, value);
                assert(parts@.map_values(|p: String| p@) =~= seq![value@] + before);
            } else if field_type == 68 {
                parts.push(value);
                assert(parts@.map_values(|p: String| p@) =~= before.push(value@));
            }
            if str_end >= data.len() {
                offset = data.len();
                break;
            }
            offset = str_end + 1;
        }
        let ghost views = parts@.map_values(|p: String| p@);
        assert(views == error_parts_from(data@, 0, Seq::empty()));
        if parts.len() == 0 {
            String::from_str("unknown error")
        } else {
            join_texts(&parts, ": ")
        }
    }
}

// ─── Builders ───────────────────────────────────────────────────────────────

/// A typed message: the tag, the length (itself included), then the body.
pub open spec fn framed(tag: u8, body: Seq<u8>) -> Seq<u8> {
    seq![tag] + be32(body.len() + 4int) + body
}

/// The UTF-8 bytes of a text, then a NUL.
pub open spec fn cstr(s: Seq<char>) -> Seq<u8> {
    encode_utf8(s) + seq![0u8]
}

fn frame(tag: u8, body: &[u8]) -> (r: Vec<u8>)
    requires
        body@.len() + 4 <= MAX_FRAME_LEN,
    ensures
        r@ == framed(tag, body@),
{
    let mut out: Vec<u8> = Vec::new();
    out.push(tag);
    push_u32_be(&mut out, (body.len() + 4) as u32);
    push_all(&mut out, body);
    out
}

fn push_cstr(out: &mut Vec<u8>, s: &str)
    ensures
        final(out)@ == old(out)@ + cstr(s@),
{
    push_all(out, s.as_bytes());
    out.push(0);
    assert(final(out)@ =~= old(out)@ + cstr(s@));
}

/// The key/value section of a startup message: each key and value as a NUL-terminated string.
pub open spec fn params_bytes(ps: Seq<(Seq<char>, Seq<char>)>) -> Seq<u8>
    decreases ps.len(),
{
    if ps.len() == 0 {
        Seq::empty()
    } else {
        params_bytes(ps.drop_last()) + cstr(ps.last().0) + cstr(ps.last().1)
    }
}

/// The startup message for the parameters `ps`.
pub open spec fn startup_bytes(ps: Seq<(Seq<char>, Seq<char>)>) -> Seq<u8> {
    be32(params_bytes(ps).len() + 9int) + be32(PROTOCOL_VERSION_30 as int) + params_bytes(ps) + seq![0u8]
}

/// Builds a protocol 3.0 startup message carrying `params` in their order.
pub fn build_startup_message(params: &TextMap) -> (r: Vec<u8>)
    requires
        params_bytes(params@).len() + 9 <= STARTUP_MAX_LEN,
    ensures
        r@ == startup_bytes(params@),
{
    let mut body: Vec<u8> = Vec::new();
    let mut i: usize = 0;
    while i < params.len()
        invariant
            i <= params@.len(),
            body@ == params_bytes(params@.subrange(0, i as int)),
            params_bytes(params@).len() + 9 <= STARTUP_MAX_LEN,
        decreases params@.len() - i,
    {
        let (k, v) = params.entry(i);
        push_cstr(&mut body, k.as_str());
        push_cstr(&mut body, v.as_str());
        assert(params@.subrange(0, i + 1).drop_last() =~= params@.subrange(0, i as int));
        i += 1;
    }
    assert(params@.subrange(0, params@.len() as int) =~= params@);
    let mut out: Vec<u8> = Vec::new();
    push_u32_be(&mut out, (body.len() + 9) as u32);
    push_u32_be(&mut out, PROTOCOL_VERSION_30);
    push_all(&mut out, body.as_slice());
    out.push(0);
    assert(out@ =~= startup_bytes(params@));
    out
}

/// Builds a simple query ('Q') carrying `sql`.
pub fn build_query_message(sql: &str) -> (r: Vec<u8>)
    requires
        sql.spec_bytes().len() + 5 <= MAX_FRAME_LEN,
    ensures
        r@ == framed(MSG_QUERY, cstr(sql@)),
{
    let mut body: Vec<u8> = Vec::new();
    push_cstr(&mut body, sql);
    assert(body@ =~= cstr(sql@));
    frame(MSG_QUERY, body.as_slice())
}

/// The fields of an ErrorResponse: severity (S and V), SQLSTATE (C) and message (M).
pub open spec fn error_body(severity: Seq<char>, sqlstate: Seq<char>, message: Seq<char>) -> Seq<u8> {
    seq![83u8] + cstr(severity) + seq![86u8] + cstr(severity) + seq![67u8] + cstr(sqlstate)
        + seq![77u8] + cstr(message) + seq![0u8]
}

/// Builds an ErrorResponse ('E').
pub fn build_error_response(severity: &str, sqlstate: &str, message: &str) -> (r: Vec<u8>)
    requires
        2 * severity.spec_bytes().len() + sqlstate.spec_bytes().len() + message.spec_bytes().len()
            + 13 <= MAX_FRAME_LEN,
    ensures
        r@ == framed(MSG_ERROR_RESPONSE, error_body(severity@, sqlstate@, message@)),
{
    let mut body: Vec<u8> = Vec::new();
    body.push(83);
    push_cstr(&mut body, severity);
    body.push(86);
    push_cstr(&mut body, severity);
    body.push(67);
    push_cstr(&mut body, sqlstate);
    body.push(77);
    push_cstr(&mut body, message);
    body.push(0);
    assert(body@ =~= error_body(severity@, sqlstate@, message@));
    frame(MSG_ERROR_RESPONSE, body.as_slice())
}

fn auth_request(code: u32) -> (r: Vec<u8>)
    ensures
        r@ == framed(MSG_AUTHENTICATION, be32(code as int)),
{
    let mut body: Vec<u8> = Vec::new();
    push_u32_be(&mut body, code);
    assert(body@ =~= be32(code as int));
    frame(MSG_AUTHENTICATION, body.as_slice())
}

/// Builds AuthenticationCleartextPassword.
pub fn build_auth_cleartext_request() -> (r: Vec<u8>)
    ensures
        r@ == framed(MSG_AUTHENTICATION, be32(AUTH_CLEARTEXT_PASSWORD as int)),
{
    auth_request(AUTH_CLEARTEXT_PASSWORD)
}

/// Builds AuthenticationOk.
pub fn build_auth_ok() -> (r: Vec<u8>)
    ensures
        r@ == framed(MSG_AUTHENTICATION, be32(AUTH_OK as int)),
{
    auth_request(AUTH_OK)
}

/// Builds ReadyForQuery with the idle status 'I'.
pub fn build_ready_for_query() -> (r: Vec<u8>)
    ensures
        r@ == framed(MSG_READY_FOR_QUERY, seq![73u8]),
{
    let mut body: Vec<u8> = Vec::new();
    body.push(73);
    frame(MSG_READY_FOR_QUERY, body.as_slice())
}

/// Builds a PasswordMessage ('p') carrying `password` and a NUL.
pub fn build_password_message(password: &[u8]) -> (r: Vec<u8>)
    requires
        password@.len() + 5 <= MAX_FRAME_LEN,
    ensures
        r@ == framed(MSG_PASSWORD, password@ + seq![0u8]),
{
    let mut body: Vec<u8> = Vec::new();
    push_all(&mut body, password);
    body.push(0);
    frame(MSG_PASSWORD, body.as_slice())
}

/// Builds a SASLInitialResponse ('p'): the mechanism name, then the length of `data`, then `data`.
pub fn build_sasl_initial_response(mechanism: &str, data: &[u8]) -> (r: Vec<u8>)
    requires
        mechanism.spec_bytes().len() + data@.len() + 9 <= MAX_FRAME_LEN,
    ensures
        r@ == framed(MSG_PASSWORD, cstr(mechanism@) + be32(data@.len() as int) + data@),
{
    let mut body: Vec<u8> = Vec::new();
    push_cstr(&mut body, mechanism);
    push_u32_be(&mut body, data.len() as u32);
    push_all(&mut body, data);
    frame(MSG_PASSWORD, body.as_slice())
}

/// Builds a SASLResponse ('p') carrying `data`.
pub fn build_sasl_response(data: &[u8]) -> (r: Vec<u8>)
    requires
        data@.len() + 4 <= MAX_FRAME_LEN,
    ensures
        r@ == framed(MSG_PASSWORD, data@),
{
    frame(MSG_PASSWORD, data)
}

/// Where the password of a complete PasswordMessage of `total` bytes ends: before a final NUL.
pub open spec fn password_end(b: Seq<u8>, total: int) -> int {
    if total > 5 && b[total - 1] == 0 {
        total - 1
    } else {
        total
    }
}

/// Reads a PasswordMessage ('p') from the front of `buf`, consuming it on success.
pub fn try_read_password_message(buf: &mut Vec<u8>) -> (r: Option<String>)
    ensures
        r is None <==> (message_frame_len(old(buf)@) is None || old(buf)@[0] != MSG_PASSWORD),
        r is None ==> final(buf)@ == old(buf)@,
        r matches Some(p) ==> {
            let n = message_frame_len(old(buf)@)->Some_0;
            &&& final(buf)@ == old(buf)@.subrange(n, old(buf)@.len() as int)
            &&& p@ == bytes_text(old(buf)@.subrange(5, password_end(old(buf)@, n)))
        },
{
    if buf.len() < 5 {
        return None;
    }
    if buf[0] != MSG_PASSWORD {
        return None;
    }
    let length = read_u32_be(buf.as_slice(), 1);
    if length < 4 || length > MAX_FRAME_LEN {
        return None;
    }
    let total = 1 + length as usize;
    if buf.len() < total {
        return None;
    }
    let end = if total > 5 && buf[total - 1] == 0 {
        total - 1
    } else {
        total
    };
    let password = text_of_bytes(copy_range(buf.as_slice(), 5, end).as_slice());
    consume_front(buf, total);
    Some(password)
}

// ─── Laws ───────────────────────────────────────────────────────────────────

/// Feeding a complete startup message `m` in pieces: every proper prefix `m[..k]` is
/// incomplete (the framer leaves it untouched), and once all of `m` is there, followed by
/// anything, it frames at exactly `m`'s length with `m`'s code and `m`'s bytes.
pub proof fn lemma_startup_chunking(m: Seq<u8>, extra: Seq<u8>, k: int)
    requires
        startup_frame_len(m) == Some(m.len() as int),
        0 <= k < m.len(),
    ensures
        startup_frame_len(m.subrange(0, k)) is None,
        startup_frame_len(m + extra) == Some(m.len() as int),
        (m + extra).subrange(0, m.len() as int) == m,
        be_u32_at(m + extra, 4) == be_u32_at(m, 4),
{
    let p = m.subrange(0, k);
    if p.len() >= 8 {
        assert(be_u32_at(p, 0) == be_u32_at(m, 0));
    }
    let q = m + extra;
    assert(be_u32_at(q, 0) == be_u32_at(m, 0));
    assert(q.subrange(0, m.len() as int) =~= m);
}

/// Feeding a complete typed message `m` in pieces: every proper prefix is incomplete, and
/// once all of `m` is there, followed by anything, it frames at exactly `m`'s length, with
/// `m`'s type, raw bytes and payload.
pub proof fn lemma_message_chunking(m: Seq<u8>, extra: Seq<u8>, k: int)
    requires
        message_frame_len(m) == Some(m.len() as int),
        0 <= k < m.len(),
    ensures
        message_frame_len(m.subrange(0, k)) is None,
        message_frame_len(m + extra) == Some(m.len() as int),
        (m + extra).subrange(0, m.len() as int) == m,
        (m + extra).subrange(5, m.len() as int) == m.subrange(5, m.len() as int),
        (m + extra)[0] == m[0],
{
    let p = m.subrange(0, k);
    if p.len() >= 5 {
        assert(be_u32_at(p, 1) == be_u32_at(m, 1));
    }
    let q = m + extra;
    assert(be_u32_at(q, 1) == be_u32_at(m, 1));
    assert(q.subrange(0, m.len() as int) =~= m);
    assert(q.subrange(5, m.len() as int) =~= m.subrange(5, m.len() as int));
}

/// Printable ASCII: from space to tilde.
pub open spec fn printable(s: Seq<char>) -> bool {
    forall|i: int| 0 <= i < s.len() ==> ' ' <= #[trigger] s[i] && s[i] <= '~'
}

/// Parameters that a startup message can carry and give back unchanged: non-empty,
/// distinct keys, and printable keys and values.
pub open spec fn plain_params(ps: Seq<(Seq<char>, Seq<char>)>) -> bool {
    &&& forall|i: int| 0 <= i < ps.len() ==> (#[trigger] ps[i]).0.len() > 0 && printable(ps[i].0) && printable(ps[i].1)
    &&& forall|i: int, j: int| 0 <= i < j < ps.len() ==> (#[trigger] ps[i]).0 != (#[trigger] ps[j]).0
}

proof fn lemma_printable_bytes(s: Seq<char>)
    requires
        printable(s),
    ensures
        encode_utf8(s).len() == s.len(),
        forall|i: int| 0 <= i < s.len() ==> #[trigger] encode_utf8(s)[i] != 0,
        bytes_text(encode_utf8(s)) == s,
{
    assert(is_ascii_chars(s));
    is_ascii_chars_encode_utf8(s);
    encode_utf8_valid_utf8(s);
    encode_utf8_decode_utf8(s);
    assert forall|i: int| 0 <= i < s.len() implies #[trigger] encode_utf8(s)[i] != 0 by {
        assert(s[i] as u8 == encode_utf8(s)[i]);
        assert(' ' <= s[i]);
    }
}

proof fn lemma_params_bytes_step(ps: Seq<(Seq<char>, Seq<char>)>, k: int)
    requires
        0 <= k < ps.len(),
    ensures
        params_bytes(ps.subrange(0, k + 1)) == params_bytes(ps.subrange(0, k)) + cstr(ps[k].0) + cstr(ps[k].1),
{
    assert(ps.subrange(0, k + 1).drop_last() =~= ps.subrange(0, k));
}

proof fn lemma_params_bytes_prefix(ps: Seq<(Seq<char>, Seq<char>)>, k: int)
    requires
        0 <= k <= ps.len(),
    ensures
        params_bytes(ps.subrange(0, k)).len() <= params_bytes(ps).len(),
        params_bytes(ps).subrange(0, params_bytes(ps.subrange(0, k)).len() as int) == params_bytes(ps.subrange(0, k)),
    decreases ps.len() - k,
{
    if k == ps.len() {
        assert(ps.subrange(0, k) =~= ps);
        assert(params_bytes(ps).subrange(0, params_bytes(ps).len() as int) =~= params_bytes(ps));
    } else {
        lemma_params_bytes_prefix(ps, k + 1);
        lemma_params_bytes_step(ps, k);
        let a = params_bytes(ps.subrange(0, k));
        let b = params_bytes(ps.subrange(0, k + 1));
        assert(b.subrange(0, a.len() as int) =~= a);
        assert(params_bytes(ps).subrange(0, a.len() as int) =~= b.subrange(0, a.len() as int));
    }
}

proof fn lemma_nul_after_run(b: Seq<u8>, off: int, len: int)
    requires
        0 <= off,
        0 <= len,
        off + len < b.len(),
        forall|j: int| off <= j < off + len ==> b[j] != 0,
        b[off + len] == 0,
    ensures
        nul_from(b, off) == Some(off + len),
    decreases len,
{
    if len > 0 {
        lemma_nul_after_run(b, off + 1, len - 1);
    }
}

proof fn lemma_params_from_tail(ps: Seq<(Seq<char>, Seq<char>)>, k: int)
    requires
        plain_params(ps),
        0 <= k <= ps.len(),
        params_bytes(ps).len() + 9 <= STARTUP_MAX_LEN,
    ensures
        params_from(startup_bytes(ps), 8 + params_bytes(ps.subrange(0, k)).len() as int, ps.subrange(0, k)) == ps,
    decreases ps.len() - k,
{
    let m = startup_bytes(ps);
    let bb = params_bytes(ps);
    let bk = params_bytes(ps.subrange(0, k));
    let off: int = 8 + bk.len() as int;
    assert(m.len() == bb.len() + 9);
    assert forall|j: int| 0 <= j < bb.len() implies m[8 + j] == #[trigger] bb[j] by {}
    lemma_params_bytes_prefix(ps, k);
    if k == ps.len() {
        assert(ps.subrange(0, k) =~= ps);
        assert(bk == bb);
    } else {
        lemma_params_bytes_prefix(ps, k + 1);
        lemma_params_bytes_step(ps, k);
        let key = ps[k].0;
        let val = ps[k].1;
        let ek = encode_utf8(key);
        let ev = encode_utf8(val);
        lemma_printable_bytes(key);
        lemma_printable_bytes(val);
        let bk1 = params_bytes(ps.subrange(0, k + 1));
        assert(bk1 == bk + (ek + seq![0u8]) + (ev + seq![0u8]));
        assert(bb.subrange(0, bk1.len() as int) == bk1);
        let ke: int = off + ek.len() as int;
        let ve: int = ke + 1 + ev.len() as int;
        assert forall|j: int| 0 <= j < bk1.len() implies m[8 + j] == #[trigger] bk1[j] by {
            assert(bb.subrange(0, bk1.len() as int)[j] == bb[j]);
        }
        assert forall|j: int| off <= j < ke implies m[j] != 0 by {
            assert(m[j] == bk1[j - 8]);
            assert(bk1[j - 8] == ek[j - 8 - bk.len()]);
        }
        assert(m[ke] == bk1[ke - 8]);
        assert(m[ke] == 0);
        lemma_nul_after_run(m, off, ek.len() as int);
        assert forall|j: int| ke + 1 <= j < ve implies m[j] != 0 by {
            assert(m[j] == bk1[j - 8]);
            assert(bk1[j - 8] == ev[j - 8 - bk.len() - ek.len() - 1]);
        }
        assert(m[ve] == bk1[ve - 8]);
        assert(m[ve] == 0);
        lemma_nul_after_run(m, ke + 1, ev.len() as int);
        assert(m.subrange(off, ke) =~= ek) by {
            assert forall|j: int| 0 <= j < ek.len() implies m.subrange(off, ke)[j] == ek[j] by {
                assert(m[off + j] == bk1[bk.len() + j]);
            }
        }
        assert(m.subrange(ke + 1, ve) =~= ev) by {
            assert forall|j: int| 0 <= j < ev.len() implies m.subrange(ke + 1, ve)[j] == ev[j] by {
                assert(m[ke + 1 + j] == bk1[bk.len() + ek.len() + 1 + j]);
            }
        }
        let acc = ps.subrange(0, k);
        assert(!has_key(acc, key)) by {
            if has_key(acc, key) {
                let i = choose|i: int| 0 <= i < acc.len() && (#[trigger] acc[i]).0 == key;
                assert(ps[i].0 != ps[k].0);
            }
        }
        assert(add_first(acc, key, val) =~= ps.subrange(0, k + 1));
        assert(bk.len() < bk1.len());
        assert(off < m.len() - 1);
        lemma_params_from_tail(ps, k + 1);
        assert(ve + 1 == 8 + bk1.len());
    }
}

/// Building a startup message from plain parameters and parsing it back gives the same
/// parameters, in the same order; the message frames at its full length as protocol 3.0.
pub proof fn lemma_startup_round_trip(ps: Seq<(Seq<char>, Seq<char>)>)
    requires
        plain_params(ps),
        params_bytes(ps).len() + 9 <= STARTUP_MAX_LEN,
    ensures
        startup_frame_len(startup_bytes(ps)) == Some(startup_bytes(ps).len() as int),
        be_u32_at(startup_bytes(ps), 4) == PROTOCOL_VERSION_30,
        startup_params_of(startup_bytes(ps)) == ps,
{
    let m = startup_bytes(ps);
    let l = params_bytes(ps).len() + 9;
    lemma_be32_round_trip(l as int);
    lemma_be32_round_trip(PROTOCOL_VERSION_30 as int);
    assert(m.subrange(0, 4) =~= be32(l as int));
    assert(be_u32_at(m, 0) == be_u32_at(be32(l as int), 0));
    assert(be_u32_at(m, 4) == be_u32_at(be32(PROTOCOL_VERSION_30 as int), 0));
    assert(ps.subrange(0, 0) =~= Seq::<(Seq<char>, Seq<char>)>::empty());
    assert(params_bytes(ps.subrange(0, 0)).len() == 0);
    lemma_params_from_tail(ps, 0);
}

} // verus!
