//! Byte-string primitives shared by the manifest parser and the path
//! planner: whitespace trimming, byte search, equality and prefix tests.
//!
//! Manifests and filesystem paths are handled as byte strings throughout the
//! library; every helper here is specified against a spec-level function on
//! `Seq<u8>`.

use vstd::prelude::*;

verus! {

pub const TAB: u8 = 9;
pub const NL: u8 = 10;
pub const CR: u8 = 13;
pub const SP: u8 = 32;
pub const QUOTE: u8 = 34;
pub const HASH: u8 = 35;
pub const COMMA: u8 = 44;
pub const DOT: u8 = 46;
pub const SLASH: u8 = 47;
pub const EQUALS: u8 = 61;
pub const LBRACK: u8 = 91;
pub const RBRACK: u8 = 93;
pub const UNDERSCORE: u8 = 95;
pub const LBRACE: u8 = 123;
pub const RBRACE: u8 = 125;

/// Whitespace that may surround tokens on a manifest line.
pub open spec fn is_ws(b: u8) -> bool {
    b == SP || b == TAB || b == CR
}

/// Index of the first non-whitespace byte at or after `i`, or `s.len()`.
pub open spec fn first_non_ws(s: Seq<u8>, i: int) -> int
    decreases s.len() - i when 0 <= i <= s.len()
{
    if i >= s.len() {
        s.len() as int
    } else if is_ws(s[i]) {
        first_non_ws(s, i + 1)
    } else {
        i
    }
}

/// One past the last non-whitespace byte strictly before `j`, or `0`.
pub open spec fn trim_end_at(s: Seq<u8>, j: int) -> int
    decreases j when 0 <= j <= s.len()
{
    if j <= 0 {
        0
    } else if is_ws(s[j - 1]) {
        trim_end_at(s, j - 1)
    } else {
        j
    }
}

/// `s` with leading and trailing whitespace removed.
pub open spec fn spec_trim(s: Seq<u8>) -> Seq<u8> {
    let a = first_non_ws(s, 0);
    let b = trim_end_at(s, s.len() as int);
    if a < b {
        s.subrange(a, b)
    } else {
        Seq::empty()
    }
}

/// Index of the first occurrence of `b` at or after `i`, or `s.len()`.
pub open spec fn find_from(s: Seq<u8>, i: int, b: u8) -> int
    decreases s.len() - i when 0 <= i <= s.len()
{
    if i >= s.len() {
        s.len() as int
    } else if s[i] == b {
        i
    } else {
        find_from(s, i + 1, b)
    }
}

pub open spec fn seq_contains_byte(s: Seq<u8>, b: u8) -> bool {
    exists|k: int| 0 <= k < s.len() && s[k] == b
}

fn is_ws_byte(b: u8) -> (r: bool)
    ensures
        r == is_ws(b),
{
    b == SP || b == TAB || b == CR
}

/// Strip leading and trailing whitespace from a byte slice.
pub fn trim(s: &[u8]) -> (r: &[u8])
    ensures
        r@ == spec_trim(s@),
{
    let n = s.len();
    let mut a: usize = 0;
    while a < n && is_ws_byte(s[a])
        invariant
            0 <= a <= n,
            n == s@.len(),
            first_non_ws(s@, 0) == first_non_ws(s@, a as int),
        decreases n - a,
    {
        a = a + 1;
    }
    assert(first_non_ws(s@, 0) == a as int);
    let mut b: usize = n;
    while b > 0 && is_ws_byte(s[b - 1])
        invariant
            0 <= b <= n,
            n == s@.len(),
            trim_end_at(s@, n as int) == trim_end_at(s@, b as int),
        decreases b,
    {
        b = b - 1;
    }
    assert(trim_end_at(s@, n as int) == b as int);
    if a < b {
        vstd::slice::slice_subrange(s, a, b)
    } else {
        let r = vstd::slice::slice_subrange(s, 0, 0);
        assert(r@ =~= spec_trim(s@));
        r
    }
}

/// Index of the first occurrence of `b` in `s`, or `s.len()` if absent.
pub fn find_byte(s: &[u8], b: u8) -> (r: usize)
    ensures
        r == find_from(s@, 0, b),
        r <= s@.len(),
{
    let n = s.len();
    let mut i: usize = 0;
    while i < n && s[i] != b
        invariant
            0 <= i <= n,
            n == s@.len(),
            find_from(s@, 0, b) == find_from(s@, i as int, b),
        decreases n - i,
    {
        i = i + 1;
    }
    assert(find_from(s@, i as int, b) == i as int);
    i
}

/// Whether `s` contains the byte `b`.
pub fn contains_byte(s: &[u8], b: u8) -> (r: bool)
    ensures
        r == seq_contains_byte(s@, b),
{
    let i = find_byte(s, b);
    if i < s.len() {
        assert(s@[find_from(s@, 0, b)] == b) by {
            lemma_find_from_hit(s@, 0, b);
        }
        true
    } else {
        assert(forall|k: int| 0 <= k < s@.len() ==> s@[k] != b) by {
            lemma_find_from_miss(s@, 0, b);
        }
        false
    }
}

/// When `find_from` lands inside the sequence it found the byte.
proof fn lemma_find_from_hit(s: Seq<u8>, i: int, b: u8)
    requires
        0 <= i <= s.len(),
        find_from(s, i, b) < s.len(),
    ensures
        s[find_from(s, i, b)] == b,
    decreases s.len() - i,
{
    if i < s.len() && s[i] != b {
        lemma_find_from_hit(s, i + 1, b);
    }
}

/// When `find_from` runs off the end, no byte from `i` on matches.
proof fn lemma_find_from_miss(s: Seq<u8>, i: int, b: u8)
    requires
        0 <= i <= s.len(),
        find_from(s, i, b) == s.len(),
    ensures
        forall|k: int| i <= k < s.len() ==> s[k] != b,
    decreases s.len() - i,
{
    if i < s.len() {
        if s[i] == b {
        } else {
            lemma_find_from_miss(s, i + 1, b);
        }
    }
}

/// Byte-for-byte equality of two slices.
pub fn bytes_eq(a: &[u8], b: &[u8]) -> (r: bool)
    ensures
        r == (a@ == b@),
{
    let n = a.len();
    if n != b.len() {
        assert(a@ != b@) by {
            assert(a@.len() != b@.len());
        }
        return false;
    }
    let mut i: usize = 0;
    while i < n
        invariant
            0 <= i <= n,
            n == a@.len(),
            n == b@.len(),
            forall|k: int| 0 <= k < i ==> a@[k] == b@[k],
        decreases n - i,
    {
        if a[i] != b[i] {
            return false;
        }
        i = i + 1;
    }
    assert(a@ =~= b@);
    true
}

/// Append every byte of `s` to `v`.
pub fn push_all(v: &mut Vec<u8>, s: &[u8])
    ensures
        final(v)@ == old(v)@ + s@,
{
    let n = s.len();
    let mut i: usize = 0;
    while i < n
        invariant
            0 <= i <= n,
            n == s@.len(),
            v@ == old(v)@ + s@.subrange(0, i as int),
        decreases n - i,
    {
        v.push(s[i]);
        assert(old(v)@ + s@.subrange(0, i as int) + seq![s@[i as int]] =~= old(v)@ + s@.subrange(
            0,
            i as int + 1,
        ));
        i = i + 1;
    }
    assert(v@ =~= old(v)@ + s@);
}

} // verus!
