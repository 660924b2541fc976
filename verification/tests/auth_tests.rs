use base64::Engine;
use easyproxy::auth::verify_basic_auth;

fn encode(payload: &[u8]) -> String {
    base64::engine::general_purpose::STANDARD.encode(payload)
}

#[test]
fn accepts_exact_credentials() {
    let value = format!("Basic {}", encode(b"user:pass"));
    assert!(verify_basic_auth(&value, "user", "pass"));
}

#[test]
fn accepts_credentials_with_colon_in_password() {
    let value = format!("Basic {}", encode(b"alice:s:ecret"));
    assert!(verify_basic_auth(&value, "alice", "s:ecret"));
}

#[test]
fn rejects_single_character_mutation() {
    let encoded = encode(b"user:pass");
    // mutate one character of the Base64 payload in every position
    for i in 0..encoded.len() {
        let mut chars: Vec<char> = encoded.chars().collect();
        chars[i] = if chars[i] == 'A' { 'B' } else { 'A' };
        let mutated: String = chars.iter().collect();
        if mutated == encoded {
            continue;
        }
        let value = format!("Basic {mutated}");
        assert!(!verify_basic_auth(&value, "user", "pass"), "mutation at {i} accepted");
    }
}

#[test]
fn rejects_wrong_password() {
    let value = format!("Basic {}", encode(b"user:wrong"));
    assert!(!verify_basic_auth(&value, "user", "pass"));
}

#[test]
fn rejects_missing_prefix() {
    let payload = encode(b"user:pass");
    assert!(!verify_basic_auth(&payload, "user", "pass"));
}

#[test]
fn rejects_prefix_without_space() {
    let value = format!("Basic{}", encode(b"user:pass"));
    assert!(!verify_basic_auth(&value, "user", "pass"));
}

#[test]
fn rejects_lower_case_prefix() {
    let value = format!("basic {}", encode(b"user:pass"));
    assert!(!verify_basic_auth(&value, "user", "pass"));
}

#[test]
fn rejects_invalid_base64() {
    assert!(!verify_basic_auth("Basic ~~~not-base64~~~", "user", "pass"));
}

#[test]
fn rejects_non_utf8_payload() {
    // valid Base64, but the decoded bytes are not UTF-8
    let value = format!("Basic {}", encode(&[0xff, 0xfe, 0xfd]));
    assert!(!verify_basic_auth(&value, "user", "pass"));
}

#[test]
fn rejects_empty_value() {
    assert!(!verify_basic_auth("", "user", "pass"));
}
