use base64::Engine;
use easyproxy::session::{
    established_response, response_text, Session, SessionAction, SessionEvent, StatusResponse,
};

fn feed(session: &mut Session, bytes: &[u8]) -> SessionAction {
    let mut act = SessionAction::Close;
    for &b in bytes.iter() {
        act = session.step(SessionEvent::ByteRead(b));
        if act != SessionAction::ReadByte {
            return act;
        }
    }
    act
}

fn connect_request(user: &str, pass: &str) -> String {
    let payload = format!("{user}:{pass}");
    let encoded = base64::engine::general_purpose::STANDARD.encode(payload.as_bytes());
    format!("CONNECT example.com:443 HTTP/1.1\r\nProxy-Authorization: Basic {encoded}\r\n\r\n")
}

#[test]
fn failed_handshake_terminates() {
    let mut s = Session::new(b"user".to_vec(), b"pass".to_vec());
    assert_eq!(s.step(SessionEvent::TlsResult(false)), SessionAction::Close);
}

#[test]
fn authenticated_connect_runs_the_success_path() {
    let mut s = Session::new(b"user".to_vec(), b"pass".to_vec());
    assert_eq!(s.step(SessionEvent::TlsResult(true)), SessionAction::ReadByte);
    let act = feed(&mut s, connect_request("user", "pass").as_bytes());
    assert_eq!(act, SessionAction::ConnectUpstream);
    assert_eq!(s.target().as_slice(), b"example.com:443");
    assert_eq!(
        s.step(SessionEvent::ConnectResult(true)),
        SessionAction::SendEstablished
    );
    assert_eq!(
        s.step(SessionEvent::EstablishedSent(true)),
        SessionAction::StartRelay
    );
    assert_eq!(s.step(SessionEvent::RelayEnded), SessionAction::Close);
}

#[test]
fn non_connect_method_gets_405_without_upstream() {
    let mut s = Session::new(b"user".to_vec(), b"pass".to_vec());
    s.step(SessionEvent::TlsResult(true));
    let act = feed(&mut s, b"GET / HTTP/1.1\r\nHost: example.com\r\n\r\n");
    assert_eq!(
        act,
        SessionAction::Respond(StatusResponse::MethodNotAllowed)
    );
}

#[test]
fn missing_credentials_get_407_without_upstream() {
    let mut s = Session::new(b"user".to_vec(), b"pass".to_vec());
    s.step(SessionEvent::TlsResult(true));
    let act = feed(&mut s, b"CONNECT example.com:443 HTTP/1.1\r\n\r\n");
    assert_eq!(act, SessionAction::Respond(StatusResponse::AuthRequired));
}

#[test]
fn wrong_password_gets_407_without_upstream() {
    let mut s = Session::new(b"user".to_vec(), b"pass".to_vec());
    s.step(SessionEvent::TlsResult(true));
    let act = feed(&mut s, connect_request("user", "wrong").as_bytes());
    assert_eq!(act, SessionAction::Respond(StatusResponse::AuthRequired));
}

#[test]
fn oversized_header_closes_silently() {
    let mut s = Session::new(b"user".to_vec(), b"pass".to_vec());
    s.step(SessionEvent::TlsResult(true));
    let mut act = SessionAction::Close;
    for _ in 0..8193 {
        act = s.step(SessionEvent::ByteRead(b'a'));
    }
    assert_eq!(act, SessionAction::Close);
}

#[test]
fn peer_close_during_header_read_closes_silently() {
    let mut s = Session::new(b"user".to_vec(), b"pass".to_vec());
    s.step(SessionEvent::TlsResult(true));
    s.step(SessionEvent::ByteRead(b'C'));
    assert_eq!(s.step(SessionEvent::PeerClosed), SessionAction::Close);
}

#[test]
fn upstream_connect_failure_gets_502() {
    let mut s = Session::new(b"user".to_vec(), b"pass".to_vec());
    s.step(SessionEvent::TlsResult(true));
    let act = feed(&mut s, connect_request("user", "pass").as_bytes());
    assert_eq!(act, SessionAction::ConnectUpstream);
    assert_eq!(
        s.step(SessionEvent::ConnectResult(false)),
        SessionAction::Respond(StatusResponse::BadGateway)
    );
}

#[test]
fn failed_established_write_closes() {
    let mut s = Session::new(b"user".to_vec(), b"pass".to_vec());
    s.step(SessionEvent::TlsResult(true));
    feed(&mut s, connect_request("user", "pass").as_bytes());
    s.step(SessionEvent::ConnectResult(true));
    assert_eq!(s.step(SessionEvent::EstablishedSent(false)), SessionAction::Close);
}

#[test]
fn connection_log_line_is_exact() {
    let line = easyproxy::session::connection_log_line(
        b"2021-01-02 03:04:05",
        b"203.0.113.9",
        b"example.com:443",
    );
    assert_eq!(line, b"2021-01-02 03:04:05 203.0.113.9 example.com:443\n".to_vec());
}

#[test]
fn response_texts_are_exact() {
    assert_eq!(
        established_response(),
        "HTTP/1.1 200 Connection Established\r\n\r\n"
    );
    assert_eq!(
        response_text(StatusResponse::MethodNotAllowed),
        "HTTP/1.1 405 Method Not Allowed\r\n\r\n"
    );
    assert_eq!(
        response_text(StatusResponse::AuthRequired),
        "HTTP/1.1 407 Proxy Authentication Required\r\nProxy-Authenticate: Basic realm=\"EasyProxy\"\r\n\r\n"
    );
    assert_eq!(
        response_text(StatusResponse::BadGateway),
        "HTTP/1.1 502 Bad Gateway\r\n\r\n"
    );
}
