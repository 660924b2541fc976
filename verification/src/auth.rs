//! Basic-credential verification: a `Proxy-Authorization` value is
//! accepted exactly when it is `Basic ` followed by the standard Base64
//! encoding of `username:password` for the configured pair.

use vstd::prelude::*;
use vstd::string::StringSliceAdditionalSpecFns;
use vstd::utf8::valid_utf8;
use crate::scan::{append_bytes, bytes_eq, copy_range};

verus! {

/// What base64's standard-alphabet, padded decoder returns for the given
/// input: `Some` of the decoded bytes on well-formed input, `None` otherwise.
/// The result depends on the input bytes alone.
pub uninterp spec fn b64_decode_of(s: Seq<u8>) -> Option<Seq<u8>>;

/// Relies on `base64::engine::Engine::decode` with the
/// `general_purpose::STANDARD` engine: the result is a function of the
/// input bytes alone.
#[verifier::external_body]
fn b64_decode(s: &[u8]) -> (r: Option<Vec<u8>>)
    ensures
        match r {
            Option::Some(v) => b64_decode_of(s@) == Option::Some(v@),
            Option::None => b64_decode_of(s@) is None,
        },
{
    base64::engine::Engine::decode(&base64::engine::general_purpose::STANDARD, s).ok()
}

/// Relies on `core::str::from_utf8`: it succeeds exactly on valid UTF-8.
#[verifier::external_body]
pub(crate) fn utf8_valid(v: &[u8]) -> (r: bool)
    ensures
        r == valid_utf8(v@),
{
    core::str::from_utf8(v).is_ok()
}

/// The bytes of `"Basic "`.
pub open spec fn basic_prefix() -> Seq<u8> {
    seq![66u8, 97u8, 115u8, 105u8, 99u8, 32u8]
}

/// The exact payload a client must present: `user`, a colon, `pass`.
pub open spec fn credential_bytes(user: Seq<u8>, pass: Seq<u8>) -> Seq<u8> {
    user + seq![58u8] + pass
}

/// When a raw `Proxy-Authorization` value authenticates the given pair:
/// it starts with `"Basic "`, the remainder is well-formed Base64, and
/// the decoded bytes are valid UTF-8 equal to `user:pass`.
pub open spec fn basic_auth_ok(value: Seq<u8>, user: Seq<u8>, pass: Seq<u8>) -> bool {
    &&& value.len() >= 6
    &&& value.subrange(0, 6) == basic_prefix()
    &&& match b64_decode_of(value.subrange(6, value.len() as int)) {
        Option::Some(d) => valid_utf8(d) && d == credential_bytes(user, pass),
        Option::None => false,
    }
}

/// Byte-level credential check; the request handler feeds it the header
/// value it extracted from the raw request.
pub fn basic_auth_bytes(value: &[u8], user: &[u8], pass: &[u8]) -> (r: bool)
    ensures
        r == basic_auth_ok(value@, user@, pass@),
{
    if value.len() < 6 {
        return false;
    }
    let prefix_ok = value[0] == 66 && value[1] == 97 && value[2] == 115 && value[3] == 105
        && value[4] == 99 && value[5] == 32;
    if !prefix_ok {
        proof {
            assert(value@.subrange(0, 6) != basic_prefix()) by {
                if value@.subrange(0, 6) == basic_prefix() {
                    assert(value@.subrange(0, 6)[0] == value@[0]);
                    assert(value@.subrange(0, 6)[1] == value@[1]);
                    assert(value@.subrange(0, 6)[2] == value@[2]);
                    assert(value@.subrange(0, 6)[3] == value@[3]);
                    assert(value@.subrange(0, 6)[4] == value@[4]);
                    assert(value@.subrange(0, 6)[5] == value@[5]);
                }
            }
        }
        return false;
    }
    proof {
        assert(value@.subrange(0, 6) =~= basic_prefix());
    }
    let rest = copy_range(value, 6, value.len());
    match b64_decode(rest.as_slice()) {
        Option::None => false,
        Option::Some(d) => {
            if !utf8_valid(d.as_slice()) {
                false
            } else {
                let mut expected: Vec<u8> = Vec::new();
                append_bytes(&mut expected, user);
                expected.push(58);
                append_bytes(&mut expected, pass);
                proof {
                    assert(expected@ =~= credential_bytes(user@, pass@));
                }
                bytes_eq(d.as_slice(), expected.as_slice())
            }
        },
    }
}

/// Verifies a raw `Proxy-Authorization` header value against the expected
/// username and password.  Malformed input of any kind is simply rejected;
/// no error is reported to the caller.
pub fn verify_basic_auth(value: &str, username: &str, password: &str) -> (r: bool)
    ensures
        r == basic_auth_ok(value.spec_bytes(), username.spec_bytes(), password.spec_bytes()),
{
    basic_auth_bytes(value.as_bytes(), username.as_bytes(), password.as_bytes())
}

/// Law: a value made of the `"Basic "` prefix and any Base64 input that
/// decodes to exactly `user:pass` (a valid UTF-8 payload) verifies.
pub proof fn lemma_auth_accepts_exact_credentials(value: Seq<u8>, user: Seq<u8>, pass: Seq<u8>)
    requires
        value.len() >= 6,
        value.subrange(0, 6) == basic_prefix(),
        b64_decode_of(value.subrange(6, value.len() as int)) == Option::Some(
            credential_bytes(user, pass),
        ),
        valid_utf8(credential_bytes(user, pass)),
    ensures
        basic_auth_ok(value, user, pass),
{
}

/// Law: whenever the Base64 part fails to decode, or decodes to anything
/// other than exactly `user:pass` — as after any mutation of the encoded
/// payload that changes the decoded bytes — verification fails.
pub proof fn lemma_auth_rejects_other_payloads(value: Seq<u8>, user: Seq<u8>, pass: Seq<u8>)
    requires
        b64_decode_of(value.subrange(6, value.len() as int)) != Option::Some(
            credential_bytes(user, pass),
        ),
    ensures
        !basic_auth_ok(value, user, pass),
{
}

/// Law: a value that does not start with the exact bytes `"Basic "` —
/// among them `"Basic"` with no trailing space and `"basic "` — never
/// verifies, whatever follows.
pub proof fn lemma_auth_needs_basic_prefix(value: Seq<u8>, user: Seq<u8>, pass: Seq<u8>)
    requires
        value.len() < 6 || value.subrange(0, 6) != basic_prefix(),
    ensures
        !basic_auth_ok(value, user, pass),
{
}

/// Law: well-formed Base64 whose decoded bytes are not valid UTF-8 fails
/// verification; the decoding error never reaches the caller.
pub proof fn lemma_auth_rejects_non_utf8(value: Seq<u8>, user: Seq<u8>, pass: Seq<u8>, d: Seq<u8>)
    requires
        b64_decode_of(value.subrange(6, value.len() as int)) == Option::Some(d),
        !valid_utf8(d),
    ensures
        !basic_auth_ok(value, user, pass),
{
}

} // verus!
