use base64::Engine;
use pgvpd::auth::{
    build_client_first, compute_md5_password, derive_scram_keys, generate_nonce, hi, hmac_sha256,
    parse_server_first, scram_client_final, sha256, upstream_auth_step, ScramError, UpstreamAuthStep,
};
use pgvpd::codec::try_read_backend_message;

#[test]
fn md5_password_known_vector() {
    let result = compute_md5_password("app_user", "secret", &[0x01, 0x02, 0x03, 0x04]);
    assert!(result.starts_with("md5"));
    assert_eq!(result.len(), 35);
}

#[test]
fn md5_password_is_lowercase_hex() {
    let result = compute_md5_password("postgres", "postgres", &[0x01, 0x02, 0x03, 0x04]);
    assert!(result[3..].chars().all(|c| c.is_ascii_hexdigit() && !c.is_ascii_uppercase()));
}

#[test]
fn md5_password_deterministic() {
    let salt = [0xAA, 0xBB, 0xCC, 0xDD];
    let r1 = compute_md5_password("user", "pass", &salt);
    let r2 = compute_md5_password("user", "pass", &salt);
    assert_eq!(r1, r2);
}

#[test]
fn md5_password_different_users_differ() {
    let salt = [1, 2, 3, 4];
    assert_ne!(compute_md5_password("alice", "pass", &salt), compute_md5_password("bob", "pass", &salt));
}

#[test]
fn md5_password_different_passwords_differ() {
    let salt = [1, 2, 3, 4];
    assert_ne!(compute_md5_password("user", "pass1", &salt), compute_md5_password("user", "pass2", &salt));
}

#[test]
fn md5_password_different_salts_differ() {
    assert_ne!(
        compute_md5_password("user", "pass", &[1, 2, 3, 4]),
        compute_md5_password("user", "pass", &[5, 6, 7, 8])
    );
}

#[test]
fn parse_server_first_valid() {
    let msg = "r=clientnonceservernonce,s=c2FsdA==,i=4096";
    let (nonce, salt_b64, iterations) = parse_server_first(msg).unwrap();
    assert_eq!(nonce, "clientnonceservernonce");
    assert_eq!(salt_b64, "c2FsdA==");
    assert_eq!(iterations, 4096);
}

#[test]
fn parse_server_first_missing_nonce() {
    assert!(parse_server_first("s=c2FsdA==,i=4096").is_err());
}

#[test]
fn parse_server_first_missing_salt() {
    assert!(parse_server_first("r=nonce,i=4096").is_err());
}

#[test]
fn parse_server_first_missing_iterations() {
    assert!(parse_server_first("r=nonce,s=c2FsdA==").is_err());
}

#[test]
fn parse_server_first_bad_iterations() {
    assert_eq!(parse_server_first("r=nonce,s=c2FsdA==,i=notanumber"), Err(ScramError::BadIterations));
}

#[test]
fn hi_deterministic() {
    assert_eq!(hi(b"password", b"salt", 4096), hi(b"password", b"salt", 4096));
}

#[test]
fn hi_different_iterations_differ() {
    assert_ne!(hi(b"password", b"salt", 4096), hi(b"password", b"salt", 1));
}

#[test]
fn hi_rfc7677_vector() {
    // PBKDF2-HMAC-SHA256("password", "salt", 1) first bytes
    let r = hi(b"password", b"salt", 1);
    assert_eq!(&r[..4], &[0x12, 0x0f, 0xb6, 0xcf]);
}

#[test]
fn hmac_sha256_deterministic() {
    let r1 = hmac_sha256(b"key", b"data");
    let r2 = hmac_sha256(b"key", b"data");
    assert_eq!(r1, r2);
    assert_eq!(r1.len(), 32);
}

#[test]
fn hmac_sha256_different_keys_differ() {
    assert_ne!(hmac_sha256(b"key1", b"data"), hmac_sha256(b"key2", b"data"));
}

#[test]
fn sha256_deterministic() {
    let r1 = sha256(b"hello");
    assert_eq!(r1, sha256(b"hello"));
    assert_eq!(r1.len(), 32);
    assert_eq!(&r1[..4], &[0x2c, 0xf2, 0x4d, 0xba]);
}

#[test]
fn nonce_is_unique() {
    assert_ne!(generate_nonce(), generate_nonce());
}

#[test]
fn nonce_is_base64() {
    let nonce = generate_nonce();
    let bytes = base64::engine::general_purpose::STANDARD.decode(&nonce).unwrap();
    assert_eq!(bytes.len(), 24);
}

#[test]
fn scram_key_derivation_consistency() {
    let password = "testpassword";
    let salt = b"testsalt12345678";
    let iterations = 4096;

    let salted_password = hi(password.as_bytes(), salt, iterations);
    let client_key = hmac_sha256(&salted_password, b"Client Key");
    let stored_key = sha256(&client_key);
    let server_key = hmac_sha256(&salted_password, b"Server Key");

    assert_eq!(salted_password.len(), 32);
    assert_eq!(client_key.len(), 32);
    assert_eq!(stored_key.len(), 32);
    assert_eq!(server_key.len(), 32);
    assert_ne!(client_key, server_key);
    assert_ne!(&stored_key[..], &client_key[..]);
    assert_eq!(salted_password, hi(password.as_bytes(), salt, iterations));

    let keys = derive_scram_keys(password.as_bytes(), salt, iterations);
    assert_eq!(keys.salted_password, salted_password);
    assert_eq!(keys.client_key, client_key);
    assert_eq!(keys.stored_key, stored_key);
    assert_eq!(keys.server_key, server_key);
}

#[test]
fn scram_rfc7677_exchange() {
    // RFC 7677 section 3 example.
    let (bare, full) = build_client_first("rOprNGfwEbeRWgbNEkqO");
    assert_eq!(bare, "n=,r=rOprNGfwEbeRWgbNEkqO");
    assert_eq!(full, "n,,n=,r=rOprNGfwEbeRWgbNEkqO");
    let bare_user = "n=user,r=rOprNGfwEbeRWgbNEkqO";
    let server_first = "r=rOprNGfwEbeRWgbNEkqO%hvYDpWUa2RaTCAfuxFIlj)hNlF$k0,s=W22ZaJ0SNY7soEsUEjb6gQ==,i=4096";
    let f = scram_client_final("pencil", "rOprNGfwEbeRWgbNEkqO", bare_user, server_first).unwrap();
    assert_eq!(
        f.client_final,
        "c=biws,r=rOprNGfwEbeRWgbNEkqO%hvYDpWUa2RaTCAfuxFIlj)hNlF$k0,p=dHzbZapWIk4jUhN+Ute9ytag9zjfMHgsqmmiz7AndVQ="
    );
    assert_eq!(f.expected_verifier, "v=6rriTRBi23WpRR/wtup+mMhUZUn/dB5nLTJRsjl95G4=");
}

#[test]
fn scram_rejects_foreign_nonce_and_bad_salt() {
    let r = scram_client_final("pw", "abc", "n=,r=abc", "r=xyz123,s=c2FsdA==,i=1");
    assert_eq!(r.err(), Some(ScramError::NonceMismatch));
    let r = scram_client_final("pw", "abc", "n=,r=abc", "r=abc123,s=!!!,i=1");
    assert_eq!(r.err(), Some(ScramError::BadSalt));
}

fn auth_message(code: u32, extra: &[u8]) -> pgvpd::codec::BackendMessage {
    let mut payload = code.to_be_bytes().to_vec();
    payload.extend_from_slice(extra);
    let mut buf = vec![b'R'];
    buf.extend_from_slice(&((4 + payload.len()) as i32).to_be_bytes());
    buf.extend_from_slice(&payload);
    try_read_backend_message(&mut buf).unwrap()
}

#[test]
fn upstream_auth_steps() {
    assert!(matches!(upstream_auth_step(&auth_message(0, &[]), "u", "p"), UpstreamAuthStep::Authenticated));
    match upstream_auth_step(&auth_message(3, &[]), "u", "secret") {
        UpstreamAuthStep::Reply(b) => assert_eq!(b, pgvpd::codec::build_password_message(b"secret")),
        _ => panic!("expected a reply"),
    }
    match upstream_auth_step(&auth_message(5, &[1, 2, 3, 4]), "u", "p") {
        UpstreamAuthStep::Reply(b) => {
            let md5 = compute_md5_password("u", "p", &[1, 2, 3, 4]);
            assert_eq!(b, pgvpd::codec::build_password_message(md5.as_bytes()));
        }
        _ => panic!("expected a reply"),
    }
    assert!(matches!(upstream_auth_step(&auth_message(5, &[1]), "u", "p"), UpstreamAuthStep::Failed(_)));
    assert!(matches!(upstream_auth_step(&auth_message(10, b"SCRAM-SHA-256\0\0"), "u", "p"), UpstreamAuthStep::StartScram));
    assert!(matches!(upstream_auth_step(&auth_message(12, &[]), "u", "p"), UpstreamAuthStep::Continue));
    assert!(matches!(upstream_auth_step(&auth_message(7, &[]), "u", "p"), UpstreamAuthStep::Unsupported(7)));
}
