use bytes::{BufMut, BytesMut};
use pgvpd::codec::{
    build_auth_cleartext_request, build_auth_ok, build_error_response, build_password_message,
    build_query_message, build_ready_for_query, build_sasl_initial_response, build_sasl_response,
    build_startup_message, try_read_backend_message, try_read_password_message, try_read_startup,
    StartupType, AUTH_MD5_PASSWORD, AUTH_OK, AUTH_SASL, AUTH_SASL_FINAL, CANCEL_REQUEST_CODE,
    MSG_AUTHENTICATION, MSG_ERROR_RESPONSE, MSG_READY_FOR_QUERY, PROTOCOL_VERSION_30,
    SSL_REQUEST_CODE,
};
use pgvpd::text::TextMap;

fn build_raw_startup(version: u32, params: &[(&str, &str)]) -> Vec<u8> {
    let mut data = BytesMut::new();
    data.put_i32(0);
    data.put_u32(version);
    for (k, v) in params {
        data.put_slice(k.as_bytes());
        data.put_u8(0);
        data.put_slice(v.as_bytes());
        data.put_u8(0);
    }
    data.put_u8(0);
    let len = data.len() as i32;
    data[0..4].copy_from_slice(&len.to_be_bytes());
    data.to_vec()
}

fn build_raw_backend_message(msg_type: u8, payload: &[u8]) -> Vec<u8> {
    let mut buf = BytesMut::new();
    buf.put_u8(msg_type);
    buf.put_i32((4 + payload.len()) as i32);
    buf.put_slice(payload);
    buf.to_vec()
}

#[test]
fn parse_normal_startup() {
    let mut buf = build_raw_startup(PROTOCOL_VERSION_30, &[("user", "admin"), ("database", "mydb")]);
    match try_read_startup(&mut buf) {
        Some(StartupType::Startup(msg)) => {
            assert_eq!(msg.params.get("user").unwrap(), "admin");
            assert_eq!(msg.params.get("database").unwrap(), "mydb");
        }
        other => panic!("expected Startup, got {:?}", other.is_some()),
    }
    assert!(buf.is_empty());
}

#[test]
fn parse_ssl_request() {
    let mut buf = BytesMut::new();
    buf.put_i32(8);
    buf.put_u32(SSL_REQUEST_CODE);
    let mut buf = buf.to_vec();
    assert!(matches!(try_read_startup(&mut buf), Some(StartupType::SslRequest)));
}

#[test]
fn parse_cancel_request() {
    let mut buf = BytesMut::new();
    buf.put_i32(16);
    buf.put_u32(CANCEL_REQUEST_CODE);
    buf.put_i32(1234);
    buf.put_i32(5678);
    let mut buf = buf.to_vec();
    assert!(matches!(try_read_startup(&mut buf), Some(StartupType::CancelRequest)));
}

#[test]
fn truncated_startup_returns_none() {
    let mut buf = vec![0u8, 0, 0, 8];
    assert!(try_read_startup(&mut buf).is_none());
}

#[test]
fn incomplete_startup_returns_none() {
    let mut buf = BytesMut::new();
    buf.put_i32(20);
    buf.put_u32(PROTOCOL_VERSION_30);
    buf.put_u8(0);
    buf.put_u8(0);
    let mut buf = buf.to_vec();
    assert!(try_read_startup(&mut buf).is_none());
    assert_eq!(buf.len(), 10);
}

#[test]
fn oversized_startup_returns_none() {
    let mut buf = BytesMut::new();
    buf.put_i32(20000);
    buf.put_u32(PROTOCOL_VERSION_30);
    buf.extend_from_slice(&vec![0u8; 20000]);
    let mut buf = buf.to_vec();
    assert!(try_read_startup(&mut buf).is_none());
}

#[test]
fn startup_with_empty_params() {
    let mut buf = build_raw_startup(PROTOCOL_VERSION_30, &[]);
    match try_read_startup(&mut buf) {
        Some(StartupType::Startup(msg)) => {
            assert!(msg.params.is_empty());
        }
        _ => panic!("expected empty Startup"),
    }
}

#[test]
fn startup_duplicate_keys_keep_first() {
    let mut buf = build_raw_startup(PROTOCOL_VERSION_30, &[("user", "first"), ("user", "second")]);
    match try_read_startup(&mut buf) {
        Some(StartupType::Startup(msg)) => {
            assert_eq!(msg.params.get("user").unwrap(), "first");
            assert_eq!(msg.params.len(), 1);
        }
        _ => panic!("expected Startup"),
    }
}

#[test]
fn startup_leaves_following_bytes() {
    let mut buf = build_raw_startup(PROTOCOL_VERSION_30, &[("user", "u")]);
    let n = buf.len();
    buf.extend_from_slice(&[b'Q', 0, 0]);
    assert!(try_read_startup(&mut buf).is_some());
    assert_eq!(buf, vec![b'Q', 0, 0]);
    assert!(n > 3);
}

#[test]
fn startup_chunked_feed_matches_single_feed() {
    let whole = build_raw_startup(PROTOCOL_VERSION_30, &[("user", "reports.tenant_42"), ("database", "analytics")]);
    for cut in 0..whole.len() {
        let mut buf: Vec<u8> = whole[..cut].to_vec();
        assert!(try_read_startup(&mut buf).is_none());
        assert_eq!(buf.len(), cut);
        buf.extend_from_slice(&whole[cut..]);
        buf.extend_from_slice(b"extra");
        match try_read_startup(&mut buf) {
            Some(StartupType::Startup(msg)) => {
                assert_eq!(msg.params.get("user").unwrap(), "reports.tenant_42");
                assert_eq!(msg.params.get("database").unwrap(), "analytics");
            }
            _ => panic!("expected Startup"),
        }
        assert_eq!(buf, b"extra".to_vec());
    }
}

#[test]
fn parse_backend_message_ready_for_query() {
    let mut buf = build_raw_backend_message(MSG_READY_FOR_QUERY, &[b'I']);
    let msg = try_read_backend_message(&mut buf).unwrap();
    assert!(msg.is_ready_for_query());
    assert_eq!(msg.payload.len(), 1);
    assert!(buf.is_empty());
}

#[test]
fn parse_backend_message_auth_ok() {
    let mut buf = build_raw_backend_message(MSG_AUTHENTICATION, &AUTH_OK.to_be_bytes());
    let msg = try_read_backend_message(&mut buf).unwrap();
    assert!(msg.is_auth_ok());
}

#[test]
fn truncated_backend_message_returns_none() {
    let mut buf = vec![b'Z', 0, 0];
    assert!(try_read_backend_message(&mut buf).is_none());
}

#[test]
fn incomplete_backend_message_returns_none() {
    let mut buf = BytesMut::new();
    buf.put_u8(b'Z');
    buf.put_i32(10);
    buf.put_u8(b'I');
    buf.put_u8(0);
    let mut buf = buf.to_vec();
    assert!(try_read_backend_message(&mut buf).is_none());
    assert_eq!(buf.len(), 7);
}

#[test]
fn backend_chunked_feed_matches_single_feed() {
    let mut whole = build_raw_backend_message(b'S', b"client_encoding\0UTF8\0");
    whole.extend_from_slice(&build_raw_backend_message(MSG_READY_FOR_QUERY, &[b'I']));
    let first_len = whole.len() - 6;
    for cut in 0..first_len {
        let mut buf: Vec<u8> = whole[..cut].to_vec();
        assert!(try_read_backend_message(&mut buf).is_none());
        assert_eq!(buf.len(), cut);
        buf.extend_from_slice(&whole[cut..]);
        let m = try_read_backend_message(&mut buf).unwrap();
        assert_eq!(m.msg_type, b'S');
        assert_eq!(m.raw, whole[..first_len].to_vec());
        assert_eq!(m.payload, b"client_encoding\0UTF8\0".to_vec());
        assert_eq!(buf.len(), 6);
    }
}

#[test]
fn auth_challenge_detection() {
    let mut buf = build_raw_backend_message(MSG_AUTHENTICATION, &AUTH_SASL.to_be_bytes());
    let msg = try_read_backend_message(&mut buf).unwrap();
    assert!(msg.is_auth_challenge());

    let mut payload = AUTH_MD5_PASSWORD.to_be_bytes().to_vec();
    payload.extend_from_slice(&[1, 2, 3, 4]);
    let mut buf = build_raw_backend_message(MSG_AUTHENTICATION, &payload);
    let msg = try_read_backend_message(&mut buf).unwrap();
    assert!(msg.is_auth_challenge());

    let mut buf = build_raw_backend_message(MSG_AUTHENTICATION, &AUTH_OK.to_be_bytes());
    let msg = try_read_backend_message(&mut buf).unwrap();
    assert!(!msg.is_auth_challenge());

    let mut buf = build_raw_backend_message(MSG_AUTHENTICATION, &AUTH_SASL_FINAL.to_be_bytes());
    let msg = try_read_backend_message(&mut buf).unwrap();
    assert!(!msg.is_auth_challenge());
}

#[test]
fn auth_subtype_extraction() {
    let mut buf = build_raw_backend_message(MSG_READY_FOR_QUERY, &[b'I']);
    let msg = try_read_backend_message(&mut buf).unwrap();
    assert_eq!(msg.auth_subtype(), None);

    let mut buf = build_raw_backend_message(MSG_AUTHENTICATION, &[0, 0]);
    let msg = try_read_backend_message(&mut buf).unwrap();
    assert_eq!(msg.auth_subtype(), None);

    let mut buf = build_raw_backend_message(MSG_AUTHENTICATION, &AUTH_SASL.to_be_bytes());
    let msg = try_read_backend_message(&mut buf).unwrap();
    assert_eq!(msg.auth_subtype(), Some(10));
}

#[test]
fn error_response_parsing() {
    let mut payload = BytesMut::new();
    payload.put_u8(b'S');
    payload.put_slice(b"ERROR\0");
    payload.put_u8(b'M');
    payload.put_slice(b"relation does not exist\0");
    payload.put_u8(b'D');
    payload.put_slice(b"table \"foo\" not found\0");
    payload.put_u8(0);
    let mut buf = build_raw_backend_message(MSG_ERROR_RESPONSE, &payload);
    let msg = try_read_backend_message(&mut buf).unwrap();
    assert!(msg.is_error_response());
    let err = msg.error_message();
    assert!(err.contains("relation does not exist"));
    assert!(err.contains("table \"foo\" not found"));
    assert_eq!(err, "relation does not exist: table \"foo\" not found");
}

#[test]
fn error_response_empty_payload() {
    let mut buf = build_raw_backend_message(MSG_ERROR_RESPONSE, &[0]);
    let msg = try_read_backend_message(&mut buf).unwrap();
    assert_eq!(msg.error_message(), "unknown error");
}

#[test]
fn non_error_message_returns_not_an_error() {
    let mut buf = build_raw_backend_message(MSG_READY_FOR_QUERY, &[b'I']);
    let msg = try_read_backend_message(&mut buf).unwrap();
    assert_eq!(msg.error_message(), "not an error");
}

#[test]
fn build_and_parse_startup_roundtrip() {
    let mut params = TextMap::new();
    params.insert("user".to_string(), "app_user".to_string());
    params.insert("database".to_string(), "mydb".to_string());
    let mut buf = build_startup_message(&params);
    match try_read_startup(&mut buf) {
        Some(StartupType::Startup(msg)) => {
            assert_eq!(msg.params.get("user").unwrap(), "app_user");
            assert_eq!(msg.params.get("database").unwrap(), "mydb");
        }
        _ => panic!("roundtrip failed"),
    }
}

#[test]
fn build_startup_message_bytes() {
    let mut params = TextMap::new();
    params.insert("user".to_string(), "reports".to_string());
    params.insert("database".to_string(), "analytics".to_string());
    let buf = build_startup_message(&params);
    let expected = build_raw_startup(PROTOCOL_VERSION_30, &[("user", "reports"), ("database", "analytics")]);
    assert_eq!(buf, expected);
}

#[test]
fn build_query_message_format() {
    let buf = build_query_message("SELECT 1");
    assert_eq!(buf[0], b'Q');
    let len = i32::from_be_bytes([buf[1], buf[2], buf[3], buf[4]]) as usize;
    assert_eq!(len, 4 + 8 + 1);
    assert_eq!(buf[buf.len() - 1], 0);
    assert_eq!(&buf[5..13], b"SELECT 1");
}

#[test]
fn build_error_response_format() {
    let buf = build_error_response("FATAL", "28000", "bad");
    let mut expected = vec![b'E'];
    let body = b"SFATAL\0VFATAL\0C28000\0Mbad\0\0";
    expected.extend_from_slice(&((body.len() + 4) as i32).to_be_bytes());
    expected.extend_from_slice(body);
    assert_eq!(buf, expected);
}

#[test]
fn build_fixed_messages() {
    assert_eq!(build_auth_cleartext_request(), vec![b'R', 0, 0, 0, 8, 0, 0, 0, 3]);
    assert_eq!(build_auth_ok(), vec![b'R', 0, 0, 0, 8, 0, 0, 0, 0]);
    assert_eq!(build_ready_for_query(), vec![b'Z', 0, 0, 0, 5, b'I']);
}

#[test]
fn build_sasl_messages() {
    let m = build_sasl_initial_response("SCRAM-SHA-256", b"n,,n=,r=abc");
    let mut expected = vec![b'p'];
    expected.extend_from_slice(&((4 + 13 + 1 + 4 + 11) as i32).to_be_bytes());
    expected.extend_from_slice(b"SCRAM-SHA-256\0");
    expected.extend_from_slice(&11i32.to_be_bytes());
    expected.extend_from_slice(b"n,,n=,r=abc");
    assert_eq!(m, expected);
    let r = build_sasl_response(b"xyz");
    assert_eq!(r, vec![b'p', 0, 0, 0, 7, b'x', b'y', b'z']);
}

#[test]
fn build_and_parse_password_roundtrip() {
    let mut buf = build_password_message(b"secret123");
    let pw = try_read_password_message(&mut buf).unwrap();
    assert_eq!(pw, "secret123");
    assert!(buf.is_empty());
}

#[test]
fn password_message_wrong_type_returns_none() {
    let mut buf = BytesMut::new();
    buf.put_u8(b'Q');
    buf.put_i32(12);
    buf.put_slice(b"secret\0");
    buf.put_u8(0);
    let mut buf = buf.to_vec();
    assert!(try_read_password_message(&mut buf).is_none());
}

#[test]
fn password_message_incomplete_returns_none() {
    let mut buf = BytesMut::new();
    buf.put_u8(b'p');
    buf.put_i32(100);
    buf.put_slice(b"short");
    let mut buf = buf.to_vec();
    assert!(try_read_password_message(&mut buf).is_none());
}

#[test]
fn parse_multiple_backend_messages_from_single_buffer() {
    let mut buf = build_raw_backend_message(MSG_READY_FOR_QUERY, &[b'I']);
    buf.extend_from_slice(&build_raw_backend_message(MSG_AUTHENTICATION, &AUTH_OK.to_be_bytes()));
    let m1 = try_read_backend_message(&mut buf).unwrap();
    assert!(m1.is_ready_for_query());
    let m2 = try_read_backend_message(&mut buf).unwrap();
    assert!(m2.is_auth_ok());
    assert!(buf.is_empty());
}

#[test]
fn backend_message_with_bad_length_is_not_framed() {
    let mut buf = vec![b'Z', 0, 0, 0, 2, b'I'];
    assert!(try_read_backend_message(&mut buf).is_none());
    assert_eq!(buf.len(), 6);
}
