use base64::Engine;
use easyproxy::request::{process_request, Decision, HeaderAccumulator, ReadOutcome};

fn auth_value(payload: &[u8]) -> String {
    format!("Basic {}", base64::engine::general_purpose::STANDARD.encode(payload))
}

#[test]
fn connect_with_valid_credentials_tunnels() {
    let req = format!(
        "CONNECT example.com:443 HTTP/1.1\r\nHost: example.com:443\r\nProxy-Authorization: {}\r\n\r\n",
        auth_value(b"user:pass"),
    );
    match process_request(req.as_bytes(), b"user", b"pass") {
        Decision::Tunnel { target } => assert_eq!(target, b"example.com:443".to_vec()),
        _ => panic!("expected a tunnel"),
    }
}

#[test]
fn auth_header_name_is_case_insensitive() {
    let req = format!(
        "CONNECT example.com:443 HTTP/1.1\r\nPROXY-AUTHORIZATION: {}\r\n\r\n",
        auth_value(b"user:pass"),
    );
    assert!(matches!(
        process_request(req.as_bytes(), b"user", b"pass"),
        Decision::Tunnel { .. }
    ));
}

#[test]
fn first_verifying_header_wins_over_malformed_duplicates() {
    let req = format!(
        "CONNECT h:1 HTTP/1.1\r\nProxy-Authorization: Basic broken\r\nProxy-Authorization: {}\r\n\r\n",
        auth_value(b"user:pass"),
    );
    assert!(matches!(
        process_request(req.as_bytes(), b"user", b"pass"),
        Decision::Tunnel { .. }
    ));
}

#[test]
fn get_is_method_not_allowed() {
    let req = format!(
        "GET http://example.com/ HTTP/1.1\r\nProxy-Authorization: {}\r\n\r\n",
        auth_value(b"user:pass"),
    );
    assert!(matches!(
        process_request(req.as_bytes(), b"user", b"pass"),
        Decision::MethodNotAllowed
    ));
}

#[test]
fn missing_auth_header_requires_auth() {
    let req = b"CONNECT example.com:443 HTTP/1.1\r\nHost: example.com:443\r\n\r\n";
    assert!(matches!(
        process_request(req, b"user", b"pass"),
        Decision::AuthRequired
    ));
}

#[test]
fn wrong_password_requires_auth() {
    let req = format!(
        "CONNECT example.com:443 HTTP/1.1\r\nProxy-Authorization: {}\r\n\r\n",
        auth_value(b"user:wrong"),
    );
    assert!(matches!(
        process_request(req.as_bytes(), b"user", b"pass"),
        Decision::AuthRequired
    ));
}

#[test]
fn auth_header_after_blank_line_is_ignored() {
    let req = format!(
        "CONNECT h:1 HTTP/1.1\r\n\r\nProxy-Authorization: {}\r\n\r\n",
        auth_value(b"user:pass"),
    );
    assert!(matches!(
        process_request(req.as_bytes(), b"user", b"pass"),
        Decision::AuthRequired
    ));
}

#[test]
fn non_utf8_request_is_dropped() {
    let req = [0xffu8, 0xfe, b'\r', b'\n', b'\r', b'\n'];
    assert!(matches!(
        process_request(&req, b"user", b"pass"),
        Decision::BadEncoding
    ));
}

#[test]
fn accumulator_reports_done_on_terminator() {
    let mut acc = HeaderAccumulator::new();
    let bytes = b"CONNECT h:1 HTTP/1.1\r\n\r\n";
    let mut last = ReadOutcome::More;
    for &b in bytes.iter() {
        last = acc.push(b);
    }
    assert_eq!(last, ReadOutcome::Done);
    assert_eq!(acc.take(), bytes.to_vec());
}

#[test]
fn accumulator_reports_overflow_past_bound() {
    let mut acc = HeaderAccumulator::new();
    for _ in 0..8192 {
        assert_eq!(acc.push(b'a'), ReadOutcome::More);
    }
    assert_eq!(acc.push(b'a'), ReadOutcome::Overflow);
}

#[test]
fn accumulator_accepts_terminator_completing_at_bound() {
    let mut acc = HeaderAccumulator::new();
    for _ in 0..8189 {
        assert_eq!(acc.push(b'a'), ReadOutcome::More);
    }
    assert_eq!(acc.push(b'\r'), ReadOutcome::More);
    assert_eq!(acc.push(b'\n'), ReadOutcome::More);
    assert_eq!(acc.push(b'\r'), ReadOutcome::More);
    assert_eq!(acc.push(b'\n'), ReadOutcome::Done);
}
