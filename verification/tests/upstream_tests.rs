use easyproxy::upstream::{
    build_connect_request, parse_connect_target, parse_proxy_url, resolve_upstream,
    upstream_response_ok,
};

#[test]
fn valid_connect_target_splits_host_and_port() {
    let t = parse_connect_target(b"example.com:443").expect("valid target");
    assert_eq!(t.host, b"example.com".to_vec());
    assert_eq!(t.port, 443);
}

#[test]
fn connect_target_needs_host_and_valid_port() {
    assert!(parse_connect_target(b"example.com").is_none());
    assert!(parse_connect_target(b":443").is_none());
    assert!(parse_connect_target(b"example.com:").is_none());
    assert!(parse_connect_target(b"example.com:99999").is_none());
    assert!(parse_connect_target(b"").is_none());
}

#[test]
fn parses_plain_proxy_url() {
    assert_eq!(
        parse_proxy_url("http://127.0.0.1:9999"),
        Some(("127.0.0.1".to_string(), 9999))
    );
}

#[test]
fn parses_url_with_surrounding_whitespace() {
    assert_eq!(
        parse_proxy_url("  http://proxy.local:8080  "),
        Some(("proxy.local".to_string(), 8080))
    );
}

#[test]
fn host_splits_at_last_colon() {
    assert_eq!(
        parse_proxy_url("http://0:0:0:1:80"),
        Some(("0:0:0:1".to_string(), 80))
    );
}

#[test]
fn port_accepts_leading_plus() {
    assert_eq!(parse_proxy_url("http://h:+80"), Some(("h".to_string(), 80)));
}

#[test]
fn rejects_other_schemes() {
    assert_eq!(parse_proxy_url("https://proxy.local:8080"), None);
    assert_eq!(parse_proxy_url("socks5://proxy.local:1080"), None);
}

#[test]
fn rejects_missing_or_bad_port() {
    assert_eq!(parse_proxy_url("http://proxy.local"), None);
    assert_eq!(parse_proxy_url("http://proxy.local:"), None);
    assert_eq!(parse_proxy_url("http://proxy.local:abc"), None);
    assert_eq!(parse_proxy_url("http://proxy.local:65536"), None);
    assert_eq!(parse_proxy_url("http://proxy.local:65535"), Some(("proxy.local".to_string(), 65535)));
}

#[test]
fn resolve_takes_first_candidate_that_parses() {
    let cands = vec![
        None,
        Some("garbage".to_string()),
        Some("http://first.proxy:3128".to_string()),
        Some("http://second.proxy:8080".to_string()),
    ];
    assert_eq!(
        resolve_upstream(&cands),
        Some(("first.proxy".to_string(), 3128))
    );
}

#[test]
fn resolve_without_usable_candidate_is_direct() {
    let cands = vec![None, Some("ftp://x:1".to_string()), None];
    assert_eq!(resolve_upstream(&cands), None);
}

#[test]
fn connect_request_has_exact_shape() {
    let req = build_connect_request(b"example.com:443");
    assert_eq!(
        req,
        b"CONNECT example.com:443 HTTP/1.1\r\nHost: example.com:443\r\n\r\n".to_vec()
    );
}

#[test]
fn accepts_200_status_line() {
    assert!(upstream_response_ok(
        b"HTTP/1.1 200 Connection Established\r\n\r\n"
    ));
}

#[test]
fn rejects_failure_status_line() {
    assert!(!upstream_response_ok(b"HTTP/1.1 403 Forbidden\r\n\r\n"));
}

#[test]
fn token_in_later_header_does_not_count() {
    assert!(!upstream_response_ok(
        b"HTTP/1.1 407 Auth\r\nContent-Length: 200\r\n\r\n"
    ));
}
