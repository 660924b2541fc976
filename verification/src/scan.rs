//! Byte-level scanning primitives shared by the request parser and the
//! upstream URL parser: ASCII whitespace, line ends, tokens, trimming.

use vstd::prelude::*;

verus! {

/// ASCII whitespace, the subset of `char::is_whitespace` that fits in one byte.
pub open spec fn is_ws(b: u8) -> bool {
    b == 32 || (9 <= b && b <= 13)
}

/// ASCII lower-casing of one byte; other bytes are unchanged.
pub open spec fn lower(b: u8) -> u8 {
    if 65 <= b && b <= 90 {
        (b + 32) as u8
    } else {
        b
    }
}

/// First index `j >= i` with `s[j] == b'\n'`, or `s.len()` if there is none.
pub open spec fn line_end_at(s: Seq<u8>, i: int) -> int
    decreases s.len() - i when 0 <= i <= s.len()
{
    if i >= s.len() {
        s.len() as int
    } else if s[i] == 10 {
        i
    } else {
        line_end_at(s, i + 1)
    }
}

/// First index `j >= i` holding a non-whitespace byte, or `s.len()`.
pub open spec fn skip_ws_from(s: Seq<u8>, i: int) -> int
    decreases s.len() - i when 0 <= i <= s.len()
{
    if i >= s.len() {
        s.len() as int
    } else if !is_ws(s[i]) {
        i
    } else {
        skip_ws_from(s, i + 1)
    }
}

/// First index `j >= i` holding a whitespace byte, or `s.len()`.
pub open spec fn token_end_from(s: Seq<u8>, i: int) -> int
    decreases s.len() - i when 0 <= i <= s.len()
{
    if i >= s.len() {
        s.len() as int
    } else if is_ws(s[i]) {
        i
    } else {
        token_end_from(s, i + 1)
    }
}

/// Position obtained from `i` by stepping left over trailing whitespace.
pub open spec fn rtrim_at(s: Seq<u8>, i: int) -> int
    decreases i when 0 <= i <= s.len()
{
    if i <= 0 {
        0
    } else if is_ws(s[i - 1]) {
        rtrim_at(s, i - 1)
    } else {
        i
    }
}

pub proof fn lemma_line_end_at(s: Seq<u8>, i: int)
    requires
        0 <= i <= s.len(),
    ensures
        i <= line_end_at(s, i) <= s.len(),
        forall|j: int| i <= j < line_end_at(s, i) ==> s[j] != 10,
        line_end_at(s, i) < s.len() ==> s[line_end_at(s, i)] == 10,
    decreases s.len() - i,
{
    if i < s.len() && s[i] != 10 {
        lemma_line_end_at(s, i + 1);
    }
}

pub proof fn lemma_skip_ws_from(s: Seq<u8>, i: int)
    requires
        0 <= i <= s.len(),
    ensures
        i <= skip_ws_from(s, i) <= s.len(),
        forall|j: int| i <= j < skip_ws_from(s, i) ==> is_ws(s[j]),
        skip_ws_from(s, i) < s.len() ==> !is_ws(s[skip_ws_from(s, i)]),
    decreases s.len() - i,
{
    if i < s.len() && is_ws(s[i]) {
        lemma_skip_ws_from(s, i + 1);
    }
}

pub proof fn lemma_token_end_from(s: Seq<u8>, i: int)
    requires
        0 <= i <= s.len(),
    ensures
        i <= token_end_from(s, i) <= s.len(),
        forall|j: int| i <= j < token_end_from(s, i) ==> !is_ws(s[j]),
        token_end_from(s, i) < s.len() ==> is_ws(s[token_end_from(s, i)]),
    decreases s.len() - i,
{
    if i < s.len() && !is_ws(s[i]) {
        lemma_token_end_from(s, i + 1);
    }
}

pub proof fn lemma_rtrim_at(s: Seq<u8>, i: int)
    requires
        0 <= i <= s.len(),
    ensures
        0 <= rtrim_at(s, i) <= i,
        forall|j: int| rtrim_at(s, i) <= j < i ==> is_ws(s[j]),
        rtrim_at(s, i) > 0 ==> !is_ws(s[rtrim_at(s, i) - 1]),
    decreases i,
{
    if i > 0 && is_ws(s[i - 1]) {
        lemma_rtrim_at(s, i - 1);
    }
}

/// Exec counterpart of `line_end_at`.
pub fn find_line_end(s: &[u8], from: usize) -> (r: usize)
    requires
        from <= s@.len(),
    ensures
        r == line_end_at(s@, from as int),
{
    let mut i: usize = from;
    loop
        invariant
            from <= i <= s@.len(),
            line_end_at(s@, from as int) == line_end_at(s@, i as int),
        decreases s@.len() - i,
    {
        if i == s.len() {
            return i;
        }
        if s[i] == 10 {
            return i;
        }
        i = i + 1;
    }
}

/// Exec counterpart of `skip_ws_from`.
pub fn skip_ws(s: &[u8], from: usize) -> (r: usize)
    requires
        from <= s@.len(),
    ensures
        r == skip_ws_from(s@, from as int),
{
    let mut i: usize = from;
    loop
        invariant
            from <= i <= s@.len(),
            skip_ws_from(s@, from as int) == skip_ws_from(s@, i as int),
        decreases s@.len() - i,
    {
        if i == s.len() {
            return i;
        }
        let b = s[i];
        if !(b == 32 || (9 <= b && b <= 13)) {
            return i;
        }
        i = i + 1;
    }
}

/// Exec counterpart of `token_end_from`.
pub fn token_end(s: &[u8], from: usize) -> (r: usize)
    requires
        from <= s@.len(),
    ensures
        r == token_end_from(s@, from as int),
{
    let mut i: usize = from;
    loop
        invariant
            from <= i <= s@.len(),
            token_end_from(s@, from as int) == token_end_from(s@, i as int),
        decreases s@.len() - i,
    {
        if i == s.len() {
            return i;
        }
        let b = s[i];
        if b == 32 || (9 <= b && b <= 13) {
            return i;
        }
        i = i + 1;
    }
}

/// Exec counterpart of `rtrim_at`.
pub fn rtrim(s: &[u8], from: usize) -> (r: usize)
    requires
        from <= s@.len(),
    ensures
        r == rtrim_at(s@, from as int),
{
    let mut i: usize = from;
    loop
        invariant
            0 <= i <= from <= s@.len(),
            rtrim_at(s@, from as int) == rtrim_at(s@, i as int),
        decreases i,
    {
        if i == 0 {
            return i;
        }
        let b = s[i - 1];
        if !(b == 32 || (9 <= b && b <= 13)) {
            return i;
        }
        i = i - 1;
    }
}

/// Exec counterpart of `lower`.
pub fn to_lower(b: u8) -> (r: u8)
    ensures
        r == lower(b),
{
    if 65 <= b && b <= 90 {
        b + 32
    } else {
        b
    }
}

/// Appends all of `s` to `v`.
pub fn append_bytes(v: &mut Vec<u8>, s: &[u8])
    ensures
        final(v)@ == old(v)@ + s@,
{
    let mut i: usize = 0;
    while i < s.len()
        invariant
            i <= s@.len(),
            v@ == old(v)@ + s@.subrange(0, i as int),
        decreases s@.len() - i,
    {
        v.push(s[i]);
        i = i + 1;
    }
    proof {
        assert(v@ =~= old(v)@ + s@);
    }
}

/// Copies `s[from..to]` into a fresh vector.
pub fn copy_range(s: &[u8], from: usize, to: usize) -> (r: Vec<u8>)
    requires
        from <= to <= s@.len(),
    ensures
        r@ == s@.subrange(from as int, to as int),
{
    let mut r: Vec<u8> = Vec::new();
    let mut i: usize = from;
    while i < to
        invariant
            from <= i <= to <= s@.len(),
            r@ == s@.subrange(from as int, i as int),
        decreases to - i,
    {
        proof {
            assert(s@.subrange(from as int, i + 1 as int) =~= s@.subrange(
                from as int,
                i as int,
            ).push(s@[i as int]));
        }
        r.push(s[i]);
        i = i + 1;
    }
    r
}

/// True when `a` and `b` hold the same bytes.
pub fn bytes_eq(a: &[u8], b: &[u8]) -> (r: bool)
    ensures
        r == (a@ == b@),
{
    if a.len() != b.len() {
        return false;
    }
    let mut i: usize = 0;
    while i < a.len()
        invariant
            a@.len() == b@.len(),
            i <= a@.len(),
            forall|j: int| 0 <= j < i ==> a@[j] == b@[j],
        decreases a@.len() - i,
    {
        if a[i] != b[i] {
            return false;
        }
        i = i + 1;
    }
    proof {
        assert(a@ =~= b@);
    }
    true
}

} // verus!
