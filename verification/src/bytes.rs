//! Byte-string primitives shared by the parser, the router and the writer.

use vstd::prelude::*;

verus! {

pub const CR: u8 = 13;

pub const LF: u8 = 10;

pub const SPACE: u8 = 32;

pub const COLON: u8 = 58;

pub const SLASH: u8 = 47;

pub const DOT: u8 = 46;

/// The ASCII lower-case form of a byte: `A`..`Z` move to `a`..`z`, every
/// other byte stays.
pub open spec fn lower(b: u8) -> u8 {
    if 65 <= b <= 90 {
        (b + 32) as u8
    } else {
        b
    }
}

/// Two byte strings that differ at most in the case of ASCII letters.
pub open spec fn same_ignoring_case(a: Seq<u8>, b: Seq<u8>) -> bool {
    &&& a.len() == b.len()
    &&& forall|i: int| 0 <= i < a.len() ==> lower(a[i]) == lower(b[i])
}

/// Index of the first `b` in `s` at or after `from`; `s.len()` if there is none.
pub open spec fn find_byte(s: Seq<u8>, b: u8, from: int) -> int
    decreases s.len() - from,
{
    if from >= s.len() {
        s.len() as int
    } else if s[from] == b {
        from
    } else {
        find_byte(s, b, from + 1)
    }
}

/// Whether a line terminator (CR LF) starts at index `i` of `s`.
pub open spec fn crlf_at(s: Seq<u8>, i: int) -> bool {
    0 <= i && i + 1 < s.len() && s[i] == CR && s[i + 1] == LF
}

/// Index of the first line terminator in `s` that starts at or after `from`;
/// `s.len()` if there is none.
pub open spec fn find_crlf(s: Seq<u8>, from: int) -> int
    decreases s.len() - from,
{
    if from + 1 >= s.len() {
        s.len() as int
    } else if crlf_at(s, from) {
        from
    } else {
        find_crlf(s, from + 1)
    }
}

/// `find_byte` returns the least index at or after `from` that holds `b`.
pub proof fn lemma_find_byte(s: Seq<u8>, b: u8, from: int)
    requires
        0 <= from <= s.len(),
    ensures
        from <= find_byte(s, b, from) <= s.len(),
        find_byte(s, b, from) < s.len() ==> s[find_byte(s, b, from)] == b,
        forall|j: int| from <= j < find_byte(s, b, from) ==> s[j] != b,
    decreases s.len() - from,
{
    if from < s.len() && s[from] != b {
        lemma_find_byte(s, b, from + 1);
    }
}

/// An index that holds `b`, with no `b` between `from` and it, is what
/// `find_byte` returns.
pub proof fn lemma_find_byte_is(s: Seq<u8>, b: u8, from: int, at: int)
    requires
        0 <= from <= at <= s.len(),
        at < s.len() ==> s[at] == b,
        forall|j: int| from <= j < at ==> s[j] != b,
    ensures
        find_byte(s, b, from) == at,
    decreases at - from,
{
    if from < at {
        lemma_find_byte_is(s, b, from + 1, at);
    }
}

/// `find_crlf` returns the least index at or after `from` where a line
/// terminator starts.
pub proof fn lemma_find_crlf(s: Seq<u8>, from: int)
    requires
        0 <= from <= s.len(),
    ensures
        from <= find_crlf(s, from) <= s.len(),
        find_crlf(s, from) < s.len() ==> crlf_at(s, find_crlf(s, from)),
        forall|j: int| from <= j < find_crlf(s, from) ==> !crlf_at(s, j),
    decreases s.len() - from,
{
    if from + 1 < s.len() && !crlf_at(s, from) {
        lemma_find_crlf(s, from + 1);
    }
}

/// An index where a line terminator starts, with none starting between
/// `from` and it, is what `find_crlf` returns.
pub proof fn lemma_find_crlf_is(s: Seq<u8>, from: int, at: int)
    requires
        0 <= from <= at <= s.len(),
        at < s.len() ==> crlf_at(s, at),
        forall|j: int| from <= j < at ==> !crlf_at(s, j),
    ensures
        find_crlf(s, from) == at,
    decreases at - from,
{
    if from < at {
        if from + 1 < s.len() {
            lemma_find_crlf_is(s, from + 1, at);
        }
    }
}

pub fn to_lower(b: u8) -> (r: u8)
    ensures
        r == lower(b),
{
    if 65 <= b && b <= 90 {
        b + 32
    } else {
        b
    }
}

/// Whether `a` and `b` hold the same bytes.
pub fn equal(a: &[u8], b: &[u8]) -> (r: bool)
    ensures
        r == (a@ == b@),
{
    if a.len() != b.len() {
        return false;
    }
    let mut i: usize = 0;
    while i < a.len()
        invariant
            i <= a.len(),
            a.len() == b.len(),
            forall|j: int| 0 <= j < i ==> a@[j] == b@[j],
        decreases a.len() - i,
    {
        if a[i] != b[i] {
            return false;
        }
        i += 1;
    }
    assert(a@ =~= b@);
    true
}

/// Whether `a` and `b` hold the same bytes up to the case of ASCII letters.
pub fn equal_ignoring_case(a: &[u8], b: &[u8]) -> (r: bool)
    ensures
        r == same_ignoring_case(a@, b@),
{
    if a.len() != b.len() {
        return false;
    }
    let mut i: usize = 0;
    while i < a.len()
        invariant
            i <= a.len(),
            a.len() == b.len(),
            forall|j: int| 0 <= j < i ==> lower(a@[j]) == lower(b@[j]),
        decreases a.len() - i,
    {
        if to_lower(a[i]) != to_lower(b[i]) {
            return false;
        }
        i += 1;
    }
    true
}

/// Whether `s` begins with `prefix`.
pub fn starts_with(s: &[u8], prefix: &[u8]) -> (r: bool)
    ensures
        r == prefix@.is_prefix_of(s@),
{
    if prefix.len() > s.len() {
        return false;
    }
    let mut i: usize = 0;
    while i < prefix.len()
        invariant
            i <= prefix.len() <= s.len(),
            forall|j: int| 0 <= j < i ==> s@[j] == prefix@[j],
        decreases prefix.len() - i,
    {
        if s[i] != prefix[i] {
            return false;
        }
        i += 1;
    }
    assert(s@.subrange(0, prefix@.len() as int) =~= prefix@);
    true
}

/// The first index at or after `from` that holds `b`, or the length of `s`.
pub fn index_of(s: &[u8], b: u8, from: usize) -> (r: usize)
    ensures
        r == find_byte(s@, b, from as int),
        r <= s@.len(),
        from <= s@.len() ==> from <= r,
{
    if from >= s.len() {
        return s.len();
    }
    let mut i: usize = from;
    while i < s.len()
        invariant
            from <= i <= s.len(),
            find_byte(s@, b, from as int) == find_byte(s@, b, i as int),
        decreases s.len() - i,
    {
        if s[i] == b {
            return i;
        }
        i += 1;
    }
    i
}

/// The first index at or after `from` where a line terminator starts, or
/// the length of `s`.
pub fn index_of_crlf(s: &[u8], from: usize) -> (r: usize)
    ensures
        r == find_crlf(s@, from as int),
        r <= s@.len(),
        from <= s@.len() ==> from <= r,
        r < s@.len() ==> r + 2 <= s@.len(),
{
    if from >= s.len() {
        return s.len();
    }
    let mut i: usize = from;
    while i + 1 < s.len()
        invariant
            from <= i < s.len(),
            find_crlf(s@, from as int) == find_crlf(s@, i as int),
        decreases s.len() - i,
    {
        if s[i] == CR && s[i + 1] == LF {
            return i;
        }
        i += 1;
    }
    s.len()
}

/// A fresh vector with the bytes of `s` from `from` up to `to`.
pub fn copy_range(s: &[u8], from: usize, to: usize) -> (r: Vec<u8>)
    requires
        from <= to <= s@.len(),
    ensures
        r@ == s@.subrange(from as int, to as int),
{
    let mut out: Vec<u8> = Vec::new();
    let mut i: usize = from;
    while i < to
        invariant
            from <= i <= to <= s.len(),
            out@ == s@.subrange(from as int, i as int),
        decreases to - i,
    {
        out.push(s[i]);
        i += 1;
        assert(out@ =~= s@.subrange(from as int, i as int));
    }
    out
}

} // verus!
