//! Raw HTTP request handling: the bounded header accumulator and the
//! parser that turns an accumulated header block into a decision —
//! reject the method, demand credentials, or open a tunnel.

use vstd::prelude::*;
use vstd::utf8::valid_utf8;
use crate::scan::{
    copy_range, find_line_end, line_end_at, lower, lemma_line_end_at, rtrim, rtrim_at,
    skip_ws, skip_ws_from, to_lower, token_end, token_end_from,
};
use crate::auth::{basic_auth_bytes, basic_auth_ok, utf8_valid};

verus! {

/// A request header block may not grow beyond this many bytes.
pub const MAX_HEADER_BYTES: usize = 8192;

/// True when `s` ends with the blank-line terminator `\r\n\r\n`.
pub open spec fn ends_with_terminator(s: Seq<u8>) -> bool {
    &&& s.len() >= 4
    &&& s[s.len() - 4] == 13
    &&& s[s.len() - 3] == 10
    &&& s[s.len() - 2] == 13
    &&& s[s.len() - 1] == 10
}

/// What one accumulated byte yields: keep reading, a complete header
/// block, or a block that outgrew the bound.
#[derive(Clone, Copy, PartialEq, Eq, Structural, Debug)]
pub enum ReadOutcome {
    More,
    Done,
    Overflow,
}

/// The outcome the accumulator must report when its contents are `s`:
/// the terminator check comes first, so a block whose final byte
/// completes `\r\n\r\n` is done even at the bound.
pub open spec fn outcome_of(s: Seq<u8>) -> ReadOutcome {
    if ends_with_terminator(s) {
        ReadOutcome::Done
    } else if s.len() > MAX_HEADER_BYTES {
        ReadOutcome::Overflow
    } else {
        ReadOutcome::More
    }
}

/// Bounded byte accumulator for a header block read off a stream one
/// byte at a time.
pub struct HeaderAccumulator {
    buf: Vec<u8>,
}

impl HeaderAccumulator {
    /// The bytes accumulated so far.
    pub closed spec fn bytes(&self) -> Seq<u8> {
        self.buf@
    }

    /// The accumulator only ever holds a block within the bound.
    pub open spec fn wf(&self) -> bool {
        self.bytes().len() <= MAX_HEADER_BYTES
    }

    pub fn new() -> (r: Self)
        ensures
            r.bytes() == Seq::<u8>::empty(),
            r.wf(),
    {
        let r = HeaderAccumulator { buf: Vec::new() };
        proof {
            assert(r.bytes() =~= Seq::<u8>::empty());
        }
        r
    }

    /// Accumulates one byte and reports whether the block is complete,
    /// still growing, or over the bound.
    pub fn push(&mut self, b: u8) -> (r: ReadOutcome)
        requires
            old(self).wf(),
        ensures
            final(self).bytes() == old(self).bytes() + seq![b],
            r == outcome_of(final(self).bytes()),
            r == ReadOutcome::More ==> final(self).wf(),
    {
        self.buf.push(b);
        let n = self.buf.len();
        let done = n >= 4 && self.buf[n - 4] == 13 && self.buf[n - 3] == 10
            && self.buf[n - 2] == 13 && self.buf[n - 1] == 10;
        if done {
            ReadOutcome::Done
        } else if n > MAX_HEADER_BYTES {
            ReadOutcome::Overflow
        } else {
            ReadOutcome::More
        }
    }

    /// Hands the completed block out.
    pub fn take(self) -> (r: Vec<u8>)
        ensures
            r@ == self.bytes(),
    {
        self.buf
    }
}

/// The bytes of `"CONNECT"`.
pub open spec fn connect_method() -> Seq<u8> {
    seq![67u8, 79u8, 78u8, 78u8, 69u8, 67u8, 84u8]
}

/// The lower-case bytes of `"proxy-authorization:"`.
pub open spec fn auth_prefix() -> Seq<u8> {
    seq![
        112u8, 114u8, 111u8, 120u8, 121u8, 45u8, 97u8, 117u8, 116u8, 104u8, 111u8, 114u8,
        105u8, 122u8, 97u8, 116u8, 105u8, 111u8, 110u8, 58u8,
    ]
}

/// End of the content of the line starting at `pos`: the position of the
/// terminating `\n` (or the end of `s`), with one trailing `\r` removed.
pub open spec fn line_content_end(s: Seq<u8>, pos: int) -> int {
    let e = line_end_at(s, pos);
    if e > pos && s[e - 1] == 13 {
        e - 1
    } else {
        e
    }
}

/// The first line of the request, without its line terminator.
pub open spec fn first_line(s: Seq<u8>) -> Seq<u8> {
    s.subrange(0, line_content_end(s, 0))
}

/// First whitespace-separated token of a request line.
pub open spec fn method_of(line: Seq<u8>) -> Seq<u8> {
    let a = skip_ws_from(line, 0);
    line.subrange(a, token_end_from(line, a))
}

/// Second whitespace-separated token of a request line.
pub open spec fn target_of(line: Seq<u8>) -> Seq<u8> {
    let a = skip_ws_from(line, 0);
    let b = token_end_from(line, a);
    let c = skip_ws_from(line, b);
    line.subrange(c, token_end_from(line, c))
}

/// True when the line names the `Proxy-Authorization` header, compared
/// case-insensitively; its colon then stands at index 19.
pub open spec fn is_auth_line(line: Seq<u8>) -> bool {
    &&& line.len() >= 20
    &&& forall|i: int| 0 <= i < 20 ==> lower(#[trigger] line[i]) == auth_prefix()[i]
}

/// The value of an auth header line: everything after the colon, with
/// surrounding ASCII whitespace trimmed.
pub open spec fn auth_value_of(line: Seq<u8>) -> Seq<u8> {
    let a = skip_ws_from(line, 20);
    let b = rtrim_at(line, line.len() as int);
    if a <= b {
        line.subrange(a, b)
    } else {
        Seq::<u8>::empty()
    }
}

/// True when some header line from position `pos` on — up to the first
/// empty line — carries credentials that verify.  The first line that
/// verifies wins; malformed duplicates are scanned past.
pub open spec fn auth_from(s: Seq<u8>, pos: int, user: Seq<u8>, pass: Seq<u8>) -> bool
    decreases s.len() - pos when 0 <= pos <= s.len()
{
    if pos >= s.len() {
        false
    } else {
        let e = line_end_at(s, pos);
        let next = if e < pos {
            pos + 1
        } else {
            e + 1
        };
        let line = s.subrange(pos, line_content_end(s, pos));
        if line.len() == 0 {
            false
        } else {
            ||| (is_auth_line(line) && basic_auth_ok(auth_value_of(line), user, pass))
            ||| (e < s.len() && auth_from(s, next, user, pass))
        }
    }
}

/// What the handler decides from a complete header block.
pub enum Decision {
    /// The block is not valid UTF-8: drop the connection silently.
    BadEncoding,
    /// The method is not `CONNECT`: answer 405.
    MethodNotAllowed,
    /// No header carries valid credentials: answer 407.
    AuthRequired,
    /// Authenticated `CONNECT`: open a tunnel to the request target.
    Tunnel { target: Vec<u8> },
}

/// Spec-level decision, with the target as a byte sequence.
pub enum SpecDecision {
    BadEncoding,
    MethodNotAllowed,
    AuthRequired,
    Tunnel(Seq<u8>),
}

/// The decision required for a header block `req`: malformed UTF-8 is
/// dropped; a non-`CONNECT` method is rejected before any credential
/// check; an authenticated `CONNECT` yields its request target.
pub open spec fn request_decision(req: Seq<u8>, user: Seq<u8>, pass: Seq<u8>) -> SpecDecision {
    if !valid_utf8(req) {
        SpecDecision::BadEncoding
    } else {
        let line = first_line(req);
        if method_of(line) != connect_method() {
            SpecDecision::MethodNotAllowed
        } else {
            let e = line_end_at(req, 0);
            if e < req.len() && auth_from(req, e + 1, user, pass) {
                SpecDecision::Tunnel(target_of(line))
            } else {
                SpecDecision::AuthRequired
            }
        }
    }
}

/// Relates the executable decision to the spec-level one.
pub open spec fn decision_matches(d: Decision, s: SpecDecision) -> bool {
    match d {
        Decision::BadEncoding => s == SpecDecision::BadEncoding,
        Decision::MethodNotAllowed => s == SpecDecision::MethodNotAllowed,
        Decision::AuthRequired => s == SpecDecision::AuthRequired,
        Decision::Tunnel { target } => match s {
            SpecDecision::Tunnel(t) => target@ == t,
            _ => false,
        },
    }
}

/// The byte of `auth_prefix()` at index `i`.
fn auth_prefix_byte(i: usize) -> (r: u8)
    requires
        i < 20,
    ensures
        r == auth_prefix()[i as int],
{
    if i == 0 {
        112
    } else if i == 1 {
        114
    } else if i == 2 {
        111
    } else if i == 3 {
        120
    } else if i == 4 {
        121
    } else if i == 5 {
        45
    } else if i == 6 {
        97
    } else if i == 7 {
        117
    } else if i == 8 {
        116
    } else if i == 9 {
        104
    } else if i == 10 {
        111
    } else if i == 11 {
        114
    } else if i == 12 {
        105
    } else if i == 13 {
        122
    } else if i == 14 {
        97
    } else if i == 15 {
        116
    } else if i == 16 {
        105
    } else if i == 17 {
        111
    } else {
        if i == 18 {
            110
        } else {
            58
        }
    }
}

/// True when the line names `Proxy-Authorization`, case-insensitively.
fn line_is_auth(line: &[u8]) -> (r: bool)
    ensures
        r == is_auth_line(line@),
{
    if line.len() < 20 {
        return false;
    }
    let mut i: usize = 0;
    while i < 20
        invariant
            line@.len() >= 20,
            i <= 20,
            forall|j: int| 0 <= j < i ==> lower(#[trigger] line@[j]) == auth_prefix()[j],
        decreases 20 - i,
    {
        if to_lower(line[i]) != auth_prefix_byte(i) {
            proof {
                assert(lower(line@[i as int]) != auth_prefix()[i as int]);
            }
            return false;
        }
        i = i + 1;
    }
    true
}

/// True when `line@.subrange(a, b)` is exactly `"CONNECT"`.
fn token_is_connect(line: &[u8], a: usize, b: usize) -> (r: bool)
    requires
        a <= b <= line@.len(),
    ensures
        r == (line@.subrange(a as int, b as int) == connect_method()),
{
    let ghost tok = line@.subrange(a as int, b as int);
    if b - a != 7 {
        proof {
            assert(tok.len() != connect_method().len());
        }
        return false;
    }
    let ok = line[a] == 67 && line[a + 1] == 79 && line[a + 2] == 78 && line[a + 3] == 78
        && line[a + 4] == 69 && line[a + 5] == 67 && line[a + 6] == 84;
    proof {
        assert(tok[0] == line@[a as int]);
        assert(tok[1] == line@[a + 1]);
        assert(tok[2] == line@[a + 2]);
        assert(tok[3] == line@[a + 3]);
        assert(tok[4] == line@[a + 4]);
        assert(tok[5] == line@[a + 5]);
        assert(tok[6] == line@[a + 6]);
        if ok {
            assert(tok =~= connect_method());
        }
    }
    ok
}

/// Extracts the trimmed value of an auth header line.
fn auth_value(line: &[u8]) -> (r: Vec<u8>)
    requires
        line@.len() >= 20,
    ensures
        r@ == auth_value_of(line@),
{
    let a = skip_ws(line, 20);
    let b = rtrim(line, line.len());
    proof {
        lemma_skip_ws_bounds(line@);
    }
    if a <= b {
        copy_range(line, a, b)
    } else {
        Vec::new()
    }
}

proof fn lemma_skip_ws_bounds(line: Seq<u8>)
    requires
        line.len() >= 20,
    ensures
        20 <= skip_ws_from(line, 20) <= line.len(),
        0 <= rtrim_at(line, line.len() as int) <= line.len(),
{
    crate::scan::lemma_skip_ws_from(line, 20);
    crate::scan::lemma_rtrim_at(line, line.len() as int);
}

/// Parses a complete header block and decides how the connection goes
/// on: drop it, answer 405, answer 407, or tunnel to the named target.
pub fn process_request(req: &[u8], user: &[u8], pass: &[u8]) -> (d: Decision)
    ensures
        decision_matches(d, request_decision(req@, user@, pass@)),
{
    if !utf8_valid(req) {
        return Decision::BadEncoding;
    }
    let e = find_line_end(req, 0);
    proof {
        lemma_line_end_at(req@, 0);
    }
    let ce = if e > 0 && req[e - 1] == 13 {
        e - 1
    } else {
        e
    };
    let line = copy_range(req, 0, ce);
    proof {
        assert(line@ == first_line(req@));
    }
    let a = skip_ws(line.as_slice(), 0);
    proof {
        crate::scan::lemma_skip_ws_from(line@, 0);
    }
    let b = token_end(line.as_slice(), a);
    proof {
        crate::scan::lemma_token_end_from(line@, a as int);
    }
    if !token_is_connect(line.as_slice(), a, b) {
        return Decision::MethodNotAllowed;
    }
    let c = skip_ws(line.as_slice(), b);
    proof {
        crate::scan::lemma_skip_ws_from(line@, b as int);
    }
    let t_end = token_end(line.as_slice(), c);
    proof {
        crate::scan::lemma_token_end_from(line@, c as int);
    }
    let target = copy_range(line.as_slice(), c, t_end);
    proof {
        assert(target@ == target_of(first_line(req@)));
    }
    if e >= req.len() {
        return Decision::AuthRequired;
    }

    let ghost start: int = e + 1;
    let mut pos: usize = e + 1;
    let mut authorized = false;
    loop
        invariant_except_break
            e < req@.len(),
            start == e + 1,
            e + 1 <= pos <= req@.len(),
            !authorized,
            auth_from(req@, start, user@, pass@) == auth_from(req@, pos as int, user@, pass@),
        ensures
            auth_from(req@, start, user@, pass@) == authorized,
        decreases req@.len() - pos,
    {
        if pos >= req.len() {
            proof {
                assert(!auth_from(req@, pos as int, user@, pass@));
            }
            break;
        }
        let le = find_line_end(req, pos);
        proof {
            lemma_line_end_at(req@, pos as int);
        }
        let lce = if le > pos && req[le - 1] == 13 {
            le - 1
        } else {
            le
        };
        if lce == pos {
            proof {
                assert(req@.subrange(pos as int, line_content_end(req@, pos as int)).len() == 0);
                assert(!auth_from(req@, pos as int, user@, pass@));
            }
            break;
        }
        let hline = copy_range(req, pos, lce);
        proof {
            assert(hline@ == req@.subrange(pos as int, line_content_end(req@, pos as int)));
        }
        if line_is_auth(hline.as_slice()) {
            let value = auth_value(hline.as_slice());
            if basic_auth_bytes(value.as_slice(), user, pass) {
                authorized = true;
                proof {
                    assert(auth_from(req@, pos as int, user@, pass@));
                }
                break;
            }
        }
        let next = if le < req.len() {
            le + 1
        } else {
            req.len()
        };
        proof {
            if le < req@.len() {
                assert(auth_from(req@, pos as int, user@, pass@) == auth_from(
                    req@,
                    le + 1,
                    user@,
                    pass@,
                ));
            } else {
                assert(!auth_from(req@, pos as int, user@, pass@));
                assert(!auth_from(req@, req@.len() as int, user@, pass@));
            }
        }
        pos = next;
    }

    if authorized {
        Decision::Tunnel { target }
    } else {
        Decision::AuthRequired
    }
}

} // verus!
