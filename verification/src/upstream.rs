//! The outbound leg: resolving an optional forward proxy from
//! environment values, the `CONNECT` request this proxy sends to it,
//! and the check of the forward proxy's reply.

use vstd::prelude::*;
use vstd::string::StringSliceAdditionalSpecFns;
use vstd::utf8::{encode_utf8, valid_utf8};
use vstd::utf8::{
    decode_utf8, encode_utf8_decode_utf8, encode_utf8_valid_utf8,
    is_char_boundary_iff_not_is_continuation_byte, valid_utf8_split,
};
use crate::scan::{
    append_bytes, copy_range, find_line_end, lemma_line_end_at, lemma_rtrim_at,
    lemma_skip_ws_from, rtrim, rtrim_at, skip_ws, skip_ws_from,
};
use crate::request::first_line;

verus! {

/// An ASCII decimal digit.
pub open spec fn is_digit(b: u8) -> bool {
    48 <= b && b <= 57
}

/// True when every byte of `s` is a decimal digit.
pub open spec fn all_digits(s: Seq<u8>) -> bool {
    forall|i: int| 0 <= i < s.len() ==> is_digit(#[trigger] s[i])
}

/// The number written in decimal by `s`.
pub open spec fn digits_value(s: Seq<u8>) -> int
    decreases s.len(),
{
    if s.len() == 0 {
        0
    } else {
        digits_value(s.drop_last()) * 10 + (s.last() - 48)
    }
}

/// The number accepted from a pure digit run: one or more decimal
/// digits whose value fits in a `u16`.
pub open spec fn parse_digits(d: Seq<u8>) -> Option<u16> {
    if d.len() > 0 && all_digits(d) && digits_value(d) <= 65535 {
        Option::Some(digits_value(d) as u16)
    } else {
        Option::None
    }
}

/// What `u16` parsing accepts: an optional leading `+`, then one or
/// more decimal digits whose value fits.
pub open spec fn spec_parse_u16(s: Seq<u8>) -> Option<u16> {
    if s.len() > 0 && s[0] == 43 {
        parse_digits(s.subrange(1, s.len() as int))
    } else {
        parse_digits(s)
    }
}

proof fn lemma_digits_nonneg(s: Seq<u8>)
    requires
        all_digits(s),
    ensures
        digits_value(s) >= 0,
    decreases s.len(),
{
    if s.len() > 0 {
        assert(all_digits(s.drop_last())) by {
            assert(forall|i: int|
                0 <= i < s.drop_last().len() ==> s.drop_last()[i] == s[i]);
        }
        lemma_digits_nonneg(s.drop_last());
    }
}

/// Dropping trailing digits never increases the value.
proof fn lemma_digits_prefix_le(s: Seq<u8>, k: int)
    requires
        all_digits(s),
        0 <= k <= s.len(),
    ensures
        digits_value(s.subrange(0, k)) <= digits_value(s),
    decreases s.len() - k,
{
    if k == s.len() {
        assert(s.subrange(0, k) =~= s);
    } else {
        let p = s.subrange(0, k);
        let q = s.subrange(0, k + 1);
        assert(q.drop_last() =~= p);
        assert(all_digits(p)) by {
            assert(forall|i: int| 0 <= i < p.len() ==> p[i] == s[i]);
        }
        lemma_digits_nonneg(p);
        assert(digits_value(q) == digits_value(p) * 10 + (s[k] - 48));
        assert(digits_value(p) <= digits_value(q)) by (nonlinear_arith)
            requires
                digits_value(p) >= 0,
                digits_value(q) == digits_value(p) * 10 + (s[k] - 48),
                48 <= s[k] <= 57,
        ;
        lemma_digits_prefix_le(s, k + 1);
    }
}

/// Parses `s[from..to]` as a `u16`, exactly as `spec_parse_u16` says.
pub fn parse_u16(s: &[u8], from: usize, to: usize) -> (r: Option<u16>)
    requires
        from <= to <= s@.len(),
    ensures
        r == spec_parse_u16(s@.subrange(from as int, to as int)),
{
    let ghost whole = s@.subrange(from as int, to as int);
    let mut i: usize = from;
    if i < to && s[i] == 43 {
        i = i + 1;
    }
    let ghost d = s@.subrange(i as int, to as int);
    proof {
        assert(whole.len() > 0 ==> whole[0] == s@[from as int]);
        if whole.len() > 0 && whole[0] == 43 {
            assert(d =~= whole.subrange(1, whole.len() as int));
        } else {
            assert(d =~= whole);
        }
        assert(spec_parse_u16(whole) == parse_digits(d));
    }
    if i == to {
        return Option::None;
    }
    let mut acc: u32 = 0;
    let mut j: usize = i;
    while j < to
        invariant
            from <= i <= j <= to <= s@.len(),
            d == s@.subrange(i as int, to as int),
            spec_parse_u16(s@.subrange(from as int, to as int)) == parse_digits(d),
            acc <= 65535,
            all_digits(d.subrange(0, j - i)),
            acc == digits_value(d.subrange(0, j - i)),
        decreases to - j,
    {
        let b = s[j];
        if !(48 <= b && b <= 57) {
            proof {
                assert(d[j - i] == b);
                assert(!all_digits(d));
            }
            return Option::None;
        }
        proof {
            assert(d.subrange(0, j + 1 - i).drop_last() =~= d.subrange(0, j - i));
            assert(d.subrange(0, j + 1 - i).last() == b);
            assert(all_digits(d.subrange(0, j + 1 - i)));
        }
        acc = acc * 10 + ((b - 48) as u32);
        j = j + 1;
        if acc > 65535 {
            proof {
                if all_digits(d) && digits_value(d) <= 65535 {
                    lemma_digits_prefix_le(d, j - i);
                }
            }
            return Option::None;
        }
    }
    proof {
        assert(d.subrange(0, to - i) =~= d);
    }
    Option::Some(acc as u16)
}

/// The bytes of `"http://"`.
pub open spec fn http_prefix() -> Seq<u8> {
    seq![104u8, 116u8, 116u8, 112u8, 58u8, 47u8, 47u8]
}

/// Index of the last colon of `s` within `[lo, i)`, or `-1`.
pub open spec fn last_colon_in(s: Seq<u8>, lo: int, i: int) -> int
    decreases i when 0 <= lo <= i <= s.len()
{
    if i <= lo {
        -1
    } else if s[i - 1] == 58 {
        i - 1
    } else {
        last_colon_in(s, lo, i - 1)
    }
}

/// What URL parsing must produce from the raw bytes of a candidate
/// value: after trimming, the literal `http://` scheme, then a host up
/// to the last colon, then a valid 16-bit port.  Anything else is
/// rejected.
pub open spec fn spec_parse_proxy(b: Seq<u8>) -> Option<(Seq<u8>, u16)> {
    let lt = skip_ws_from(b, 0);
    let rt = rtrim_at(b, b.len() as int);
    if lt + 7 <= rt && b.subrange(lt, lt + 7) == http_prefix() {
        let c = last_colon_in(b, lt + 7, rt);
        if c >= 0 {
            match spec_parse_u16(b.subrange(c + 1, rt)) {
                Option::Some(p) => Option::Some((b.subrange(lt + 7, c), p)),
                Option::None => Option::None,
            }
        } else {
            Option::None
        }
    } else {
        Option::None
    }
}

/// Relies on `String::from_utf8`: it succeeds exactly on valid UTF-8
/// and returns the string holding exactly the given bytes.
#[verifier::external_body]
fn string_from_bytes(v: Vec<u8>) -> (r: Option<String>)
    ensures
        match r {
            Option::Some(s) => valid_utf8(v@) && encode_utf8(s@) == v@,
            Option::None => !valid_utf8(v@),
        },
{
    String::from_utf8(v).ok()
}

/// Exec counterpart of `last_colon_in` over `[lo, hi)`.
fn find_last_colon(s: &[u8], lo: usize, hi: usize) -> (r: Option<usize>)
    requires
        lo <= hi <= s@.len(),
    ensures
        match r {
            Option::Some(c) => {
                &&& last_colon_in(s@, lo as int, hi as int) == c
                &&& lo <= c < hi
                &&& s@[c as int] == 58
            },
            Option::None => last_colon_in(s@, lo as int, hi as int) == -1,
        },
{
    let mut i: usize = hi;
    loop
        invariant
            lo <= i <= hi <= s@.len(),
            last_colon_in(s@, lo as int, hi as int) == last_colon_in(s@, lo as int, i as int),
        decreases i,
    {
        if i <= lo {
            return Option::None;
        }
        if s[i - 1] == 58 {
            return Option::Some(i - 1);
        }
        i = i - 1;
    }
}

/// Parses one forward-proxy candidate of the form `http://host:port`.
/// Whitespace around the value is ignored; a missing scheme, a missing
/// colon, or a malformed port rejects the candidate.
pub fn parse_proxy_url(url: &str) -> (r: Option<(String, u16)>)
    ensures
        match spec_parse_proxy(url.spec_bytes()) {
            Option::Some(hp) => match r {
                Option::Some(x) => encode_utf8(x.0@) == hp.0 && x.0@ == decode_utf8(hp.0)
                    && x.1 == hp.1,
                Option::None => false,
            },
            Option::None => r is None,
        },
{
    let b = url.as_bytes();
    let lt = skip_ws(b, 0);
    let rt = rtrim(b, b.len());
    proof {
        lemma_skip_ws_from(b@, 0);
        lemma_rtrim_at(b@, b@.len() as int);
    }
    if rt < 7 || lt > rt - 7 {
        return Option::None;
    }
    let prefix_ok = b[lt] == 104 && b[lt + 1] == 116 && b[lt + 2] == 116 && b[lt + 3] == 112
        && b[lt + 4] == 58 && b[lt + 5] == 47 && b[lt + 6] == 47;
    let ghost pre = b@.subrange(lt as int, lt + 7);
    proof {
        assert(pre[0] == b@[lt as int]);
        assert(pre[1] == b@[lt + 1]);
        assert(pre[2] == b@[lt + 2]);
        assert(pre[3] == b@[lt + 3]);
        assert(pre[4] == b@[lt + 4]);
        assert(pre[5] == b@[lt + 5]);
        assert(pre[6] == b@[lt + 6]);
    }
    if !prefix_ok {
        proof {
            assert(pre != http_prefix());
        }
        return Option::None;
    }
    proof {
        assert(pre =~= http_prefix());
    }
    let c = match find_last_colon(b, lt + 7, rt) {
        Option::None => {
            return Option::None;
        },
        Option::Some(c) => c,
    };
    let p = match parse_u16(b, c + 1, rt) {
        Option::None => {
            return Option::None;
        },
        Option::Some(p) => p,
    };
    let host = copy_range(b, lt + 7, c);
    proof {
        lemma_host_bytes_valid_utf8(url, lt as int, c as int);
        assert(host@ == spec_parse_proxy(url.spec_bytes()).unwrap().0);
    }
    match string_from_bytes(host) {
        Option::Some(hs) => {
            proof {
                encode_utf8_decode_utf8(hs@);
            }
            Option::Some((hs, p))
        },
        Option::None => {
            // unreachable: the host bytes were shown valid UTF-8 above
            proof {
                assert(false);
            }
            Option::None
        },
    }
}

/// The host part cut out of a URL's bytes between the ASCII scheme and
/// the ASCII colon is itself valid UTF-8.
proof fn lemma_host_bytes_valid_utf8(url: &str, lt: int, c: int)
    requires
        0 <= lt,
        lt + 7 <= c,
        c < url.spec_bytes().len(),
        url.spec_bytes().subrange(lt, lt + 7) == http_prefix(),
        url.spec_bytes()[c] == 58,
    ensures
        valid_utf8(url.spec_bytes().subrange(lt + 7, c)),
{
    let bs = url.spec_bytes();
    let n = bs.len() as int;
    encode_utf8_valid_utf8(url@);
    assert(valid_utf8(bs));
    assert(bs[lt + 6] == 47);
    is_char_boundary_iff_not_is_continuation_byte(bs, lt + 6);
    valid_utf8_split(bs, lt + 6);
    let suffix6 = bs.subrange(lt + 6, n);
    assert(valid_utf8(suffix6));
    assert(suffix6.len() > 0);
    assert(vstd::utf8::is_leading_byte_width_1(suffix6[0]));
    assert(vstd::utf8::length_of_first_scalar(suffix6) == 1);
    assert(valid_utf8(vstd::utf8::pop_first_scalar(suffix6)));
    let suffix7 = bs.subrange(lt + 7, n);
    assert(vstd::utf8::pop_first_scalar(suffix6) =~= suffix7);
    assert(valid_utf8(suffix7));
    assert(suffix7[c - lt - 7] == 58);
    is_char_boundary_iff_not_is_continuation_byte(suffix7, c - lt - 7);
    valid_utf8_split(suffix7, c - lt - 7);
    assert(suffix7.subrange(0, c - lt - 7) =~= bs.subrange(lt + 7, c));
}

/// The upstream proxy resolved from an ordered list of optional
/// environment values, scanned from index `i` on: the first value
/// present that parses wins; values that fail to parse are skipped.
pub open spec fn spec_resolve(cands: Seq<Option<String>>, i: int) -> Option<(Seq<u8>, u16)>
    decreases cands.len() - i when 0 <= i <= cands.len()
{
    if i >= cands.len() {
        Option::None
    } else {
        match cands[i] {
            Option::Some(s) => match spec_parse_proxy(encode_utf8(s@)) {
                Option::Some(hp) => Option::Some(hp),
                Option::None => spec_resolve(cands, i + 1),
            },
            Option::None => spec_resolve(cands, i + 1),
        }
    }
}

/// Resolves the forward proxy once from the ordered candidate values
/// (the relevant environment variables, read at startup): the first
/// present value that parses as `http://host:port` wins; `None` means
/// every connection goes out directly.
pub fn resolve_upstream(cands: &Vec<Option<String>>) -> (r: Option<(String, u16)>)
    ensures
        match spec_resolve(cands@, 0) {
            Option::Some(hp) => match r {
                Option::Some(x) => encode_utf8(x.0@) == hp.0 && x.0@ == decode_utf8(hp.0)
                    && x.1 == hp.1,
                Option::None => false,
            },
            Option::None => r is None,
        },
{
    let mut i: usize = 0;
    while i < cands.len()
        invariant
            i <= cands@.len(),
            spec_resolve(cands@, 0) == spec_resolve(cands@, i as int),
        decreases cands@.len() - i,
    {
        match vstd::std_specs::vec::vec_index(cands, i) {
            Option::Some(s) => {
                match parse_proxy_url(s.as_str()) {
                    Option::Some(hp) => {
                        return Option::Some(hp);
                    },
                    Option::None => {},
                }
            },
            Option::None => {},
        }
        i = i + 1;
    }
    Option::None
}

/// A syntactically valid `CONNECT` target: a nonempty host and a port.
pub struct ConnectTarget {
    pub host: Vec<u8>,
    pub port: u16,
}

/// What target validation must produce from the raw bytes of a request
/// target: a nonempty host before the last colon and a valid 16-bit
/// port after it, or nothing.
pub open spec fn spec_parse_target(b: Seq<u8>) -> Option<(Seq<u8>, u16)> {
    let c = last_colon_in(b, 0, b.len() as int);
    if c >= 1 {
        match spec_parse_u16(b.subrange(c + 1, b.len() as int)) {
            Option::Some(p) => Option::Some((b.subrange(0, c), p)),
            Option::None => Option::None,
        }
    } else {
        Option::None
    }
}

/// Validates a request target of the authority form `host:port`; an
/// outbound connection may only be attempted for a target this accepts.
pub fn parse_connect_target(target: &[u8]) -> (r: Option<ConnectTarget>)
    ensures
        match spec_parse_target(target@) {
            Option::Some(hp) => match r {
                Option::Some(t) => t.host@ == hp.0 && t.port == hp.1,
                Option::None => false,
            },
            Option::None => r is None,
        },
{
    let c = match find_last_colon(target, 0, target.len()) {
        Option::None => {
            return Option::None;
        },
        Option::Some(c) => c,
    };
    if c < 1 {
        return Option::None;
    }
    let p = match parse_u16(target, c + 1, target.len()) {
        Option::None => {
            return Option::None;
        },
        Option::Some(p) => p,
    };
    let host = copy_range(target, 0, c);
    Option::Some(ConnectTarget { host, port: p })
}

/// The bytes of `"CONNECT "`.
pub open spec fn connect_req_head() -> Seq<u8> {
    seq![67u8, 79u8, 78u8, 78u8, 69u8, 67u8, 84u8, 32u8]
}

/// The bytes of `" HTTP/1.1\r\nHost: "`.
pub open spec fn connect_req_mid() -> Seq<u8> {
    seq![
        32u8, 72u8, 84u8, 84u8, 80u8, 47u8, 49u8, 46u8, 49u8, 13u8, 10u8, 72u8, 111u8, 115u8,
        116u8, 58u8, 32u8,
    ]
}

/// The bytes of the blank-line terminator `"\r\n\r\n"`.
pub open spec fn crlf_crlf() -> Seq<u8> {
    seq![13u8, 10u8, 13u8, 10u8]
}

/// The `CONNECT` request this proxy sends to the forward proxy:
/// `CONNECT target HTTP/1.1`, a `Host: target` header, a blank line.
pub open spec fn spec_connect_request(target: Seq<u8>) -> Seq<u8> {
    connect_req_head() + target + connect_req_mid() + target + crlf_crlf()
}

/// Builds the bytes of the `CONNECT` request for `target`.
pub fn build_connect_request(target: &[u8]) -> (r: Vec<u8>)
    ensures
        r@ == spec_connect_request(target@),
{
    let mut v: Vec<u8> = Vec::new();
    v.push(67);
    v.push(79);
    v.push(78);
    v.push(78);
    v.push(69);
    v.push(67);
    v.push(84);
    v.push(32);
    proof {
        assert(v@ =~= connect_req_head());
    }
    append_bytes(&mut v, target);
    v.push(32);
    v.push(72);
    v.push(84);
    v.push(84);
    v.push(80);
    v.push(47);
    v.push(49);
    v.push(46);
    v.push(49);
    v.push(13);
    v.push(10);
    v.push(72);
    v.push(111);
    v.push(115);
    v.push(116);
    v.push(58);
    v.push(32);
    proof {
        assert(v@ =~= connect_req_head() + target@ + connect_req_mid());
    }
    append_bytes(&mut v, target);
    v.push(13);
    v.push(10);
    v.push(13);
    v.push(10);
    proof {
        assert(v@ =~= spec_connect_request(target@));
    }
    v
}

/// True when the token `200` stands at index `i` of `line`.
pub open spec fn has_200_at(line: Seq<u8>, i: int) -> bool {
    &&& 0 <= i
    &&& i + 3 <= line.len()
    &&& line[i] == 50
    &&& line[i + 1] == 48
    &&& line[i + 2] == 48
}

/// True when the forward proxy's status line carries the token `200`.
pub open spec fn status_line_ok(resp: Seq<u8>) -> bool {
    exists|i: int| has_200_at(first_line(resp), i)
}

/// Checks the forward proxy's reply: the tunnel may open only when the
/// status line contains `200`.
pub fn upstream_response_ok(resp: &[u8]) -> (r: bool)
    ensures
        r == status_line_ok(resp@),
{
    let e = find_line_end(resp, 0);
    proof {
        lemma_line_end_at(resp@, 0);
    }
    let ce = if e > 0 && resp[e - 1] == 13 {
        e - 1
    } else {
        e
    };
    let line = copy_range(resp, 0, ce);
    proof {
        assert(line@ == first_line(resp@));
    }
    let n = line.len();
    if n < 3 {
        proof {
            assert(!status_line_ok(resp@)) by {
                if status_line_ok(resp@) {
                    let i = choose|i: int| has_200_at(first_line(resp@), i);
                    assert(i + 3 <= line@.len());
                }
            }
        }
        return false;
    }
    let mut i: usize = 0;
    while i <= n - 3
        invariant
            3 <= n == line@.len(),
            i <= n,
            line@ == first_line(resp@),
            forall|j: int| 0 <= j < i ==> !has_200_at(line@, j),
        decreases n - i,
    {
        if line[i] == 50 && line[i + 1] == 48 && line[i + 2] == 48 {
            proof {
                assert(has_200_at(line@, i as int));
            }
            return true;
        }
        i = i + 1;
    }
    proof {
        assert(!status_line_ok(resp@)) by {
            if status_line_ok(resp@) {
                let j = choose|j: int| has_200_at(first_line(resp@), j);
                assert(j + 3 <= line@.len());
                assert(j < i);
            }
        }
    }
    false
}

} // verus!
