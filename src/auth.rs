//! Authentication: the MD5 password reply, SCRAM-SHA-256 (RFC 5802) client messages and key
//! derivation, and the upstream dialog's decision for each Authentication message.
//! The digests, MACs and base64 come from their crates, behind the wrappers below.

use vstd::prelude::*;
use vstd::string::StringSliceAdditionalSpecFns;
use vstd::utf8::encode_utf8;
use base64::Engine;
use hmac::Mac;
use md5::Digest;
use rand::RngCore;
use crate::text::{chars_of, string_of, split_text, split_on, parse_decimal, parse_unsigned};
use crate::codec::{
    BackendMessage, build_password_message, framed, MSG_PASSWORD, MSG_ERROR_RESPONSE, AUTH_OK,
    AUTH_CLEARTEXT_PASSWORD, AUTH_MD5_PASSWORD, AUTH_SASL, AUTH_SASL_FINAL, MAX_FRAME_LEN,
};

verus! {

// ─── Outside primitives ─────────────────────────────────────────────────────

/// The MD5 digest of `b`.
pub uninterp spec fn md5_digest(b: Seq<u8>) -> Seq<u8>;

/// The SHA-256 digest of `b`.
pub uninterp spec fn sha256_digest(b: Seq<u8>) -> Seq<u8>;

/// HMAC-SHA-256 of `data` under `key`.
pub uninterp spec fn hmac_sha256_mac(key: Seq<u8>, data: Seq<u8>) -> Seq<u8>;

/// PBKDF2-HMAC-SHA-256 of `password` and `salt` with `rounds` rounds, 32 bytes long.
pub uninterp spec fn pbkdf2_sha256(password: Seq<u8>, salt: Seq<u8>, rounds: u32) -> Seq<u8>;

/// The standard (padded) base64 text of `b`.
pub uninterp spec fn base64_text(b: Seq<u8>) -> Seq<char>;

/// The bytes of the standard base64 text `s`, when it is valid.
pub uninterp spec fn base64_bytes(s: Seq<char>) -> Option<Seq<u8>>;

/// Relies on `md5::Md5` (md-5): the 16-byte digest of `data`.
#[verifier::external_body]
fn md5_of(data: &[u8]) -> (r: Vec<u8>)
    ensures
        r@ == md5_digest(data@),
        r@.len() == 16,
{
    md5::Md5::digest(data).to_vec()
}

/// Relies on `sha2::Sha256`: the 32-byte digest of `data`.
#[verifier::external_body]
fn sha256_of(data: &[u8]) -> (r: Vec<u8>)
    ensures
        r@ == sha256_digest(data@),
        r@.len() == 32,
{
    sha2::Sha256::digest(data).to_vec()
}

/// Relies on `hmac::Hmac<Sha256>`: the 32-byte MAC of `data` under `key` (any key length is accepted).
#[verifier::external_body]
fn hmac_of(key: &[u8], data: &[u8]) -> (r: Vec<u8>)
    ensures
        r@ == hmac_sha256_mac(key@, data@),
        r@.len() == 32,
{
    let mut mac = <hmac::Hmac<sha2::Sha256> as hmac::Mac>::new_from_slice(key).expect("any key length");
    mac.update(data);
    mac.finalize().into_bytes().to_vec()
}

/// Relies on `pbkdf2::pbkdf2_hmac::<Sha256>`, which fills a 32-byte output for any input.
#[verifier::external_body]
fn pbkdf2_of(password: &[u8], salt: &[u8], rounds: u32) -> (r: Vec<u8>)
    ensures
        r@ == pbkdf2_sha256(password@, salt@, rounds),
        r@.len() == 32,
{
    let mut out = [0u8; 32];
    pbkdf2::pbkdf2_hmac::<sha2::Sha256>(password, salt, rounds, &mut out);
    out.to_vec()
}

/// Relies on `base64::engine::general_purpose::STANDARD.encode`.
#[verifier::external_body]
fn base64_encode(data: &[u8]) -> (r: String)
    requires
        data@.len() <= 1073741824,
    ensures
        r@ == base64_text(data@),
{
    base64::engine::general_purpose::STANDARD.encode(data)
}

/// Relies on `base64::engine::general_purpose::STANDARD.decode`: `None` for invalid input.
#[verifier::external_body]
fn base64_decode(text: &str) -> (r: Option<Vec<u8>>)
    ensures
        match base64_bytes(text@) {
            Some(b) => r matches Some(v) && v@ == b,
            None => r is None,
        },
{
    base64::engine::general_purpose::STANDARD.decode(text).ok()
}

/// Relies on `rand::thread_rng().fill_bytes`: 24 random bytes.
#[verifier::external_body]
fn random_bytes() -> (r: Vec<u8>)
    ensures
        r@.len() == 24,
{
    let mut bytes = [0u8; 24];
    rand::thread_rng().fill_bytes(&mut bytes);
    bytes.to_vec()
}

// ─── MD5 ────────────────────────────────────────────────────────────────────

pub open spec fn hex_digit(d: u8) -> char {
    if d < 10 { ((d + 48) as u8) as char } else { ((d + 87) as u8) as char }
}

/// Two lowercase hex digits per byte.
pub open spec fn hex_lower(b: Seq<u8>) -> Seq<char>
    decreases b.len(),
{
    if b.len() == 0 {
        Seq::empty()
    } else {
        hex_lower(b.drop_last()) + seq![hex_digit(b.last() / 16), hex_digit(b.last() % 16)]
    }
}

fn hex_digit_exec(d: u8) -> (c: char)
    requires
        d < 16,
    ensures
        c == hex_digit(d),
{
    if d < 10 { ((d + 48) as u8) as char } else { ((d + 87) as u8) as char }
}

fn to_hex(b: &[u8]) -> (r: Vec<char>)
    ensures
        r@ == hex_lower(b@),
        r@.len() == 2 * b@.len(),
{
    let mut out: Vec<char> = Vec::new();
    let mut i: usize = 0;
    while i < b.len()
        invariant
            i <= b@.len(),
            out@ == hex_lower(b@.subrange(0, i as int)),
            out@.len() == 2 * i,
        decreases b@.len() - i,
    {
        out.push(hex_digit_exec(b[i] / 16));
        out.push(hex_digit_exec(b[i] % 16));
        assert(b@.subrange(0, i + 1).drop_last() =~= b@.subrange(0, i as int));
        i += 1;
    }
    assert(b@.subrange(0, b@.len() as int) =~= b@);
    out
}

fn concat_bytes(a: &[u8], b: &[u8]) -> (r: Vec<u8>)
    ensures
        r@ == a@ + b@,
{
    let mut out: Vec<u8> = Vec::new();
    crate::wire::push_all(&mut out, a);
    crate::wire::push_all(&mut out, b);
    assert(out@ =~= a@ + b@);
    out
}

/// The MD5 password reply: `"md5"` then hex(md5(hex(md5(password ‖ user)) ‖ salt)).
pub open spec fn md5_password(user: Seq<char>, password: Seq<char>, salt: Seq<u8>) -> Seq<char> {
    let phase1 = hex_lower(md5_digest(encode_utf8(password) + encode_utf8(user)));
    "md5"@ + hex_lower(md5_digest(encode_utf8(phase1) + salt))
}

proof fn lemma_hex_ascii(b: Seq<u8>)
    ensures
        vstd::utf8::is_ascii_chars(hex_lower(b)),
    decreases b.len(),
{
    if b.len() > 0 {
        lemma_hex_ascii(b.drop_last());
        let h = hex_lower(b);
        let t = hex_lower(b.drop_last());
        assert forall|i: int| 0 <= i < h.len() implies '\0' <= #[trigger] h[i] <= '\u{7f}' by {
            if i < t.len() {
                assert(h[i] == t[i]);
            }
        }
    }
}

proof fn lemma_md5_password_ascii(user: Seq<char>, password: Seq<char>, salt: Seq<u8>)
    ensures
        vstd::utf8::is_ascii_chars(md5_password(user, password, salt)),
{
    reveal_strlit("md5");
    let phase1 = hex_lower(md5_digest(encode_utf8(password) + encode_utf8(user)));
    let h = hex_lower(md5_digest(encode_utf8(phase1) + salt));
    lemma_hex_ascii(md5_digest(encode_utf8(phase1) + salt));
    let m = md5_password(user, password, salt);
    assert forall|i: int| 0 <= i < m.len() implies '\0' <= #[trigger] m[i] <= '\u{7f}' by {
        if i >= 3 {
            assert(m[i] == h[i - 3]);
        }
    }
}

/// Computes the MD5 password reply for `username`, `password` and the 4-byte `salt`.
pub fn compute_md5_password(username: &str, password: &str, salt: &[u8]) -> (r: String)
    ensures
        r@ == md5_password(username@, password@, salt@),
        r@.len() == 35,
{
    let inner = concat_bytes(password.as_bytes(), username.as_bytes());
    let phase1 = to_hex(md5_of(inner.as_slice()).as_slice());
    let phase1_text = string_of(phase1.as_slice());
    let outer = concat_bytes(phase1_text.as_str().as_bytes(), salt);
    let phase2 = to_hex(md5_of(outer.as_slice()).as_slice());
    proof { reveal_strlit("md5"); }
    let mut out = chars_of("md5");
    let mut p2 = phase2;
    out.append(&mut p2);
    string_of(out.as_slice())
}

/// Equal inputs give the same MD5 password reply.
pub proof fn lemma_md5_password_deterministic(
    u1: Seq<char>, p1: Seq<char>, s1: Seq<u8>, u2: Seq<char>, p2: Seq<char>, s2: Seq<u8>,
)
    requires
        u1 == u2,
        p1 == p2,
        s1 == s2,
    ensures
        md5_password(u1, p1, s1) == md5_password(u2, p2, s2),
{
}

// ─── SCRAM-SHA-256 ──────────────────────────────────────────────────────────

/// The 32-byte HMAC-SHA-256 of `data` under `key`.
pub fn hmac_sha256(key: &[u8], data: &[u8]) -> (r: Vec<u8>)
    ensures
        r@ == hmac_sha256_mac(key@, data@),
        r@.len() == 32,
{
    hmac_of(key, data)
}

/// The 32-byte SHA-256 digest of `data`.
pub fn sha256(data: &[u8]) -> (r: Vec<u8>)
    ensures
        r@ == sha256_digest(data@),
        r@.len() == 32,
{
    sha256_of(data)
}

/// The SCRAM `Hi` function: PBKDF2-HMAC-SHA-256 with 32 bytes of output.
pub fn hi(password: &[u8], salt: &[u8], iterations: u32) -> (r: Vec<u8>)
    ensures
        r@ == pbkdf2_sha256(password@, salt@, iterations),
        r@.len() == 32,
{
    pbkdf2_of(password, salt, iterations)
}

/// The SCRAM keys derived from a password.
pub struct ScramKeys {
    pub salted_password: Vec<u8>,
    pub client_key: Vec<u8>,
    pub stored_key: Vec<u8>,
    pub server_key: Vec<u8>,
}

pub open spec fn salted_of(password: Seq<u8>, salt: Seq<u8>, iterations: u32) -> Seq<u8> {
    pbkdf2_sha256(password, salt, iterations)
}

pub open spec fn client_key_of(password: Seq<u8>, salt: Seq<u8>, iterations: u32) -> Seq<u8> {
    hmac_sha256_mac(salted_of(password, salt, iterations), "Client Key"@.map_values(|c: char| c as u8))
}

pub open spec fn server_key_of(password: Seq<u8>, salt: Seq<u8>, iterations: u32) -> Seq<u8> {
    hmac_sha256_mac(salted_of(password, salt, iterations), "Server Key"@.map_values(|c: char| c as u8))
}

pub open spec fn stored_key_of(password: Seq<u8>, salt: Seq<u8>, iterations: u32) -> Seq<u8> {
    sha256_digest(client_key_of(password, salt, iterations))
}

fn ascii_bytes(s: &str) -> (r: Vec<u8>)
    requires
        vstd::utf8::is_ascii_chars(s@),
    ensures
        r@ == s@.map_values(|c: char| c as u8),
{
    proof { vstd::utf8::is_ascii_chars_encode_utf8(s@); }
    let mut v: Vec<u8> = Vec::new();
    crate::wire::push_all(&mut v, s.as_bytes());
    assert(v@ =~= s@.map_values(|c: char| c as u8));
    v
}

/// Derives SaltedPassword, ClientKey, StoredKey and ServerKey.
pub fn derive_scram_keys(password: &[u8], salt: &[u8], iterations: u32) -> (r: ScramKeys)
    ensures
        r.salted_password@ == salted_of(password@, salt@, iterations),
        r.client_key@ == client_key_of(password@, salt@, iterations),
        r.stored_key@ == stored_key_of(password@, salt@, iterations),
        r.server_key@ == server_key_of(password@, salt@, iterations),
        r.salted_password@.len() == 32,
        r.client_key@.len() == 32,
        r.stored_key@.len() == 32,
        r.server_key@.len() == 32,
{
    proof {
        reveal_strlit("Client Key");
        reveal_strlit("Server Key");
    }
    let salted_password = hi(password, salt, iterations);
    let ck_label = ascii_bytes("Client Key");
    let sk_label = ascii_bytes("Server Key");
    let client_key = hmac_sha256(salted_password.as_slice(), ck_label.as_slice());
    let stored_key = sha256(client_key.as_slice());
    let server_key = hmac_sha256(salted_password.as_slice(), sk_label.as_slice());
    ScramKeys { salted_password, client_key, stored_key, server_key }
}

/// Deriving twice from the same password, salt and iteration count gives the same four keys,
/// each 32 bytes long.
pub proof fn lemma_scram_keys_deterministic(password: Seq<u8>, salt: Seq<u8>, iterations: u32, a: ScramKeys, b: ScramKeys)
    requires
        a.salted_password@ == salted_of(password, salt, iterations),
        a.client_key@ == client_key_of(password, salt, iterations),
        a.stored_key@ == stored_key_of(password, salt, iterations),
        a.server_key@ == server_key_of(password, salt, iterations),
        b.salted_password@ == salted_of(password, salt, iterations),
        b.client_key@ == client_key_of(password, salt, iterations),
        b.stored_key@ == stored_key_of(password, salt, iterations),
        b.server_key@ == server_key_of(password, salt, iterations),
    ensures
        a.salted_password@ == b.salted_password@,
        a.client_key@ == b.client_key@,
        a.stored_key@ == b.stored_key@,
        a.server_key@ == b.server_key@,
{
}

// ─── SCRAM messages ─────────────────────────────────────────────────────────

/// Why a SCRAM exchange cannot go on.
#[derive(Debug, Clone, Copy, PartialEq, Eq)]
pub enum ScramError {
    MissingNonce,
    MissingSalt,
    MissingIterations,
    BadIterations,
    /// The server nonce does not start with the client nonce.
    NonceMismatch,
    /// The salt is not valid base64.
    BadSalt,
}

pub open spec fn has_prefix(s: Seq<char>, p: Seq<char>) -> bool {
    s.len() >= p.len() && s.subrange(0, p.len() as int) == p
}

pub open spec fn after_prefix(s: Seq<char>, n: int) -> Seq<char> {
    s.subrange(n, s.len() as int)
}

/// The attributes read from the first `k` comma-separated parts of a server-first message:
/// nonce, salt, iterations, and whether an iteration count failed to parse. The last
/// occurrence of an attribute wins; a bad iteration count stops the reading.
pub open spec fn server_first_fold(parts: Seq<Seq<char>>, k: int)
    -> (Option<Seq<char>>, Option<Seq<char>>, Option<nat>, bool)
    decreases k,
{
    if k <= 0 || k > parts.len() {
        (None, None, None, false)
    } else {
        let prev = server_first_fold(parts, k - 1);
        let p = parts[k - 1];
        if prev.3 {
            prev
        } else if has_prefix(p, "r="@) {
            (Some(after_prefix(p, 2)), prev.1, prev.2, false)
        } else if has_prefix(p, "s="@) {
            (prev.0, Some(after_prefix(p, 2)), prev.2, false)
        } else if has_prefix(p, "i="@) {
            match parse_unsigned(after_prefix(p, 2), 4294967295) {
                Some(n) => (prev.0, prev.1, Some(n), false),
                None => (prev.0, prev.1, prev.2, true),
            }
        } else {
            prev
        }
    }
}

/// The nonce, base64 salt and iteration count of a server-first message, or what is wrong.
pub open spec fn server_first_of(msg: Seq<char>) -> Result<(Seq<char>, Seq<char>, nat), ScramError> {
    let parts = split_on(msg, ","@);
    let f = server_first_fold(parts, parts.len() as int);
    if f.3 {
        Err(ScramError::BadIterations)
    } else if f.0 is None {
        Err(ScramError::MissingNonce)
    } else if f.1 is None {
        Err(ScramError::MissingSalt)
    } else if f.2 is None {
        Err(ScramError::MissingIterations)
    } else {
        Ok((f.0->Some_0, f.1->Some_0, f.2->Some_0))
    }
}

fn starts_with_text(s: &Vec<char>, p: &str) -> (r: bool)
    ensures
        r == has_prefix(s@, p@),
{
    let pc = chars_of(p);
    if s.len() < pc.len() {
        return false;
    }
    let mut i: usize = 0;
    while i < pc.len()
        invariant
            i <= pc@.len(),
            pc@.len() <= s@.len(),
            pc@ == p@,
            forall|q: int| 0 <= q < i ==> s@[q] == pc@[q],
        decreases pc@.len() - i,
    {
        if s[i] != pc[i] {
            assert(s@.subrange(0, pc@.len() as int)[i as int] != pc@[i as int]);
            return false;
        }
        i += 1;
    }
    assert(s@.subrange(0, pc@.len() as int) =~= pc@);
    true
}

/// Reads `r=<nonce>,s=<salt>,i=<iterations>` from a server-first message.
pub fn parse_server_first(msg: &str) -> (r: Result<(String, String, u32), ScramError>)
    ensures
        match server_first_of(msg@) {
            Ok((n, s, i)) => r matches Ok((rn, rs, ri)) && rn@ == n && rs@ == s && ri as nat == i,
            Err(e) => r == Err::<(String, String, u32), ScramError>(e),
        },
{
    proof {
        reveal_strlit("r=");
        reveal_strlit("s=");
        reveal_strlit("i=");
        reveal_strlit(",");
    }
    let m = chars_of(msg);
    let comma = chars_of(",");
    let parts = split_text(&m, &comma);
    let ghost pv = parts@.map_values(|p: Vec<char>| p@);
    let mut nonce: Option<Vec<char>> = None;
    let mut salt: Option<Vec<char>> = None;
    let mut iterations: Option<u32> = None;
    let mut k: usize = 0;
    while k < parts.len()
        invariant
            k <= parts@.len(),
            pv == parts@.map_values(|p: Vec<char>| p@),
            pv == split_on(msg@, ","@),
            ({
                let f = server_first_fold(pv, k as int);
                &&& !f.3
                &&& (match nonce { Some(v) => f.0 == Some(v@), None => f.0 is None })
                &&& (match salt { Some(v) => f.1 == Some(v@), None => f.1 is None })
                &&& (match iterations { Some(v) => f.2 == Some(v as nat), None => f.2 is None })
            }),
        decreases parts@.len() - k,
    {
        proof {
            reveal_strlit("r=");
            reveal_strlit("s=");
            reveal_strlit("i=");
        }
        let p = &parts[k];
        assert(pv[k as int] == p@);
        let ghost prev = server_first_fold(pv, k as int);
        if starts_with_text(p, "r=") {
            nonce = Some(crate::text::slice_chars(p, 2, p.len()));
        } else if starts_with_text(p, "s=") {
            salt = Some(crate::text::slice_chars(p, 2, p.len()));
        } else if starts_with_text(p, "i=") {
            let rest = string_of(crate::text::slice_chars(p, 2, p.len()).as_slice());
            match parse_decimal(rest.as_str(), 4294967295) {
                Some(n) => {
                    iterations = Some(n as u32);
                },
                None => {
                    assert(server_first_fold(pv, k + 1).3);
                    proof { lemma_fold_stays_failed(pv, k + 1, pv.len() as int); }
                    return Err(ScramError::BadIterations);
                },
            }
        }
        k += 1;
    }
    let n = match nonce {
        Some(v) => v,
        None => return Err(ScramError::MissingNonce),
    };
    let sl = match salt {
        Some(v) => v,
        None => return Err(ScramError::MissingSalt),
    };
    let it = match iterations {
        Some(v) => v,
        None => return Err(ScramError::MissingIterations),
    };
    Ok((string_of(n.as_slice()), string_of(sl.as_slice()), it))
}

proof fn lemma_fold_stays_failed(parts: Seq<Seq<char>>, k: int, m: int)
    requires
        0 < k <= m <= parts.len(),
        server_first_fold(parts, k).3,
    ensures
        server_first_fold(parts, m).3,
    decreases m - k,
{
    if k < m {
        lemma_fold_stays_failed(parts, k, m - 1);
    }
}

/// `n=,r=<nonce>`: the client-first message without its GS2 header.
pub open spec fn client_first_bare(nonce: Seq<char>) -> Seq<char> {
    "n=,r="@ + nonce
}

fn join3(a: &str, b: &str, c: &str) -> (r: String)
    ensures
        r@ == a@ + b@ + c@,
{
    let mut x = chars_of(a);
    let mut y = chars_of(b);
    let mut z = chars_of(c);
    x.append(&mut y);
    x.append(&mut z);
    string_of(x.as_slice())
}

/// The client-first message `n,,n=,r=<nonce>` and its bare part `n=,r=<nonce>`.
pub fn build_client_first(nonce: &str) -> (r: (String, String))
    ensures
        r.0@ == client_first_bare(nonce@),
        r.1@ == "n,,"@ + client_first_bare(nonce@),
{
    proof { reveal_strlit(""); }
    let bare = join3("n=,r=", nonce, "");
    let full = join3("n,,", bare.as_str(), "");
    assert(bare@ =~= client_first_bare(nonce@));
    assert(full@ =~= "n,,"@ + client_first_bare(nonce@));
    (bare, full)
}

/// A fresh client nonce: 24 random bytes in base64.
pub fn generate_nonce() -> (r: String)
    ensures
        exists|b: Seq<u8>| b.len() == 24 && r@ == base64_text(b),
{
    let bytes = random_bytes();
    base64_encode(bytes.as_slice())
}

/// `c=biws,r=<server nonce>`.
pub open spec fn final_without_proof(server_nonce: Seq<char>) -> Seq<char> {
    "c=biws,r="@ + server_nonce
}

/// The AuthMessage that both signatures cover.
pub open spec fn auth_message(bare: Seq<char>, server_first: Seq<char>, server_nonce: Seq<char>) -> Seq<char> {
    bare + ","@ + server_first + ","@ + final_without_proof(server_nonce)
}

pub open spec fn xor_bytes(a: Seq<u8>, b: Seq<u8>) -> Seq<u8> {
    Seq::new(a.len(), |i: int| a[i] ^ b[i])
}

/// The client-final message and the verifier the server must answer with.
pub struct ScramFinal {
    pub client_final: String,
    pub expected_verifier: String,
}

fn xor_vec(a: &Vec<u8>, b: &Vec<u8>) -> (r: Vec<u8>)
    requires
        a@.len() == b@.len(),
    ensures
        r@ == xor_bytes(a@, b@),
{
    let mut out: Vec<u8> = Vec::new();
    let mut i: usize = 0;
    while i < a.len()
        invariant
            i <= a@.len(),
            a@.len() == b@.len(),
            out@.len() == i,
            forall|q: int| 0 <= q < i ==> out@[q] == a@[q] ^ b@[q],
        decreases a@.len() - i,
    {
        out.push(a[i] ^ b[i]);
        i += 1;
    }
    assert(out@ =~= xor_bytes(a@, b@));
    out
}

/// From the server-first message: the client-final message (with the client proof) and the
/// expected server verifier `v=<base64 ServerSignature>`.
pub fn scram_client_final(password: &str, client_nonce: &str, client_first_bare_text: &str, server_first: &str)
    -> (r: Result<ScramFinal, ScramError>)
    requires
        client_first_bare_text.spec_bytes().len() + server_first.spec_bytes().len() <= 1073741824,
    ensures
        match server_first_of(server_first@) {
            Err(e) => r == Err::<ScramFinal, ScramError>(e),
            Ok((sn, salt64, iters)) => {
                if !has_prefix(sn, client_nonce@) {
                    r == Err::<ScramFinal, ScramError>(ScramError::NonceMismatch)
                } else {
                    match base64_bytes(salt64) {
                        None => r == Err::<ScramFinal, ScramError>(ScramError::BadSalt),
                        Some(salt) => {
                            let pw = encode_utf8(password@);
                            let am = encode_utf8(auth_message(client_first_bare_text@, server_first@, sn));
                            let proof_bytes = xor_bytes(
                                client_key_of(pw, salt, iters as u32),
                                hmac_sha256_mac(stored_key_of(pw, salt, iters as u32), am),
                            );
                            r matches Ok(f)
                            && f.client_final@ == final_without_proof(sn) + ",p="@ + base64_text(proof_bytes)
                            && f.expected_verifier@ == "v="@ + base64_text(hmac_sha256_mac(server_key_of(pw, salt, iters as u32), am))
                        },
                    }
                }
            },
        },
{
    let (server_nonce, salt_b64, iterations) = match parse_server_first(server_first) {
        Ok(t) => t,
        Err(e) => return Err(e),
    };
    let sn = chars_of(server_nonce.as_str());
    if !starts_with_text(&sn, client_nonce) {
        return Err(ScramError::NonceMismatch);
    }
    let salt = match base64_decode(salt_b64.as_str()) {
        Some(s) => s,
        None => return Err(ScramError::BadSalt),
    };
    let keys = derive_scram_keys(password.as_bytes(), salt.as_slice(), iterations);
    let without_proof = join3("c=biws,r=", server_nonce.as_str(), "");
    let first_half = join3(client_first_bare_text, ",", server_first);
    let am = join3(first_half.as_str(), ",", without_proof.as_str());
    proof {
        reveal_strlit(",");
        reveal_strlit("c=biws,r=");
        reveal_strlit("");
        assert(without_proof@ =~= final_without_proof(server_nonce@));
        assert(am@ =~= auth_message(client_first_bare_text@, server_first@, server_nonce@));
    }
    let am_bytes = am.as_str().as_bytes();
    let client_signature = hmac_sha256(keys.stored_key.as_slice(), am_bytes);
    let client_proof = xor_vec(&keys.client_key, &client_signature);
    let proof64 = base64_encode(client_proof.as_slice());
    let client_final = join3(without_proof.as_str(), ",p=", proof64.as_str());
    let server_signature = hmac_sha256(keys.server_key.as_slice(), am_bytes);
    let sig64 = base64_encode(server_signature.as_slice());
    let expected_verifier = join3("v=", sig64.as_str(), "");
    Ok(ScramFinal { client_final, expected_verifier })
}

// ─── Upstream dialog ────────────────────────────────────────────────────────

/// What to do with one message while authenticating to the upstream server.
pub enum UpstreamAuthStep {
    /// AuthenticationOk: done.
    Authenticated,
    /// An ErrorResponse, or a malformed request: give up with this text.
    Failed(String),
    /// Send these bytes (a PasswordMessage).
    Reply(Vec<u8>),
    /// The server asks for SASL: run SCRAM-SHA-256.
    StartScram,
    /// Nothing to do for this message.
    Continue,
    /// An authentication method that is not supported.
    Unsupported(u32),
}

/// Decides the reply to one upstream message: cleartext and MD5 requests are answered with a
/// PasswordMessage, SASL starts SCRAM, SASLFinal needs nothing.
pub fn upstream_auth_step(msg: &BackendMessage, username: &str, password: &str) -> (r: UpstreamAuthStep)
    requires
        password.spec_bytes().len() <= 1073741824,
    ensures
        msg.auth_code() == Some(AUTH_OK as int) ==> r is Authenticated,
        msg.msg_type == MSG_ERROR_RESPONSE ==> r is Failed,
        msg.msg_type != MSG_ERROR_RESPONSE && msg.auth_code() is None ==> r is Continue,
        msg.auth_code() == Some(AUTH_CLEARTEXT_PASSWORD as int) ==> (r matches UpstreamAuthStep::Reply(b)
            && b@ == framed(MSG_PASSWORD, encode_utf8(password@) + seq![0u8])),
        msg.auth_code() == Some(AUTH_MD5_PASSWORD as int) && msg.payload@.len() < 8 ==> r is Failed,
        msg.auth_code() == Some(AUTH_MD5_PASSWORD as int) && msg.payload@.len() >= 8 ==> (r matches UpstreamAuthStep::Reply(b)
            && b@ == framed(MSG_PASSWORD, encode_utf8(md5_password(username@, password@, msg.payload@.subrange(4, 8))) + seq![0u8])),
        msg.auth_code() == Some(AUTH_SASL as int) ==> r is StartScram,
        msg.auth_code() == Some(AUTH_SASL_FINAL as int) ==> r is Continue,
        (msg.auth_code() matches Some(c) && c != AUTH_OK && c != AUTH_CLEARTEXT_PASSWORD && c != AUTH_MD5_PASSWORD
            && c != AUTH_SASL && c != AUTH_SASL_FINAL) ==> r == UpstreamAuthStep::Unsupported(msg.auth_code()->Some_0 as u32),
{
    if msg.is_auth_ok() {
        return UpstreamAuthStep::Authenticated;
    }
    if msg.is_error_response() {
        return UpstreamAuthStep::Failed(msg.error_message());
    }
    let subtype = match msg.auth_subtype() {
        Some(s) => s,
        None => return UpstreamAuthStep::Continue,
    };
    if subtype == AUTH_CLEARTEXT_PASSWORD {
        UpstreamAuthStep::Reply(build_password_message(password.as_bytes()))
    } else if subtype == AUTH_MD5_PASSWORD {
        if msg.payload.len() < 8 {
            return UpstreamAuthStep::Failed(String::from_str("MD5 auth message too short"));
        }
        let salt = crate::wire::copy_range(msg.payload.as_slice(), 4, 8);
        let hashed = compute_md5_password(username, password, salt.as_slice());
        proof { reveal_strlit("md5"); }
        let hb = hashed.as_str().as_bytes();
        proof {
            lemma_md5_password_ascii(username@, password@, salt@);
            vstd::utf8::is_ascii_chars_encode_utf8(hashed@);
        }
        UpstreamAuthStep::Reply(build_password_message(hb))
    } else if subtype == AUTH_SASL {
        UpstreamAuthStep::StartScram
    } else if subtype == AUTH_SASL_FINAL {
        UpstreamAuthStep::Continue
    } else {
        UpstreamAuthStep::Unsupported(subtype)
    }
}

} // verus!
