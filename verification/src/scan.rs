//! Byte classes and the two primitive scanners the request-head grammar is
//! built from: a run of bytes in one class, and a fixed tag.  Both come in a
//! spec form over `Seq<u8>` and an exec form over slices, and both follow
//! streaming discipline: running off the end of the input is "need more
//! bytes", never a failure, so a parse over a prefix can only be undecided.

use vstd::prelude::*;

verus! {

/// ASCII codes the grammar singles out.
pub const SP: u8 = 32;
pub const HTAB: u8 = 9;
pub const CR: u8 = 13;
pub const LF: u8 = 10;
pub const COLON: u8 = 58;

/// A space or horizontal tab, the separators of the start line.
pub open spec fn is_space_byte(c: u8) -> bool {
    c == SP || c == HTAB
}

/// Any byte a start-line token may hold: everything but the separators.
pub open spec fn is_word_byte(c: u8) -> bool {
    !is_space_byte(c)
}

/// An ASCII decimal digit.
pub open spec fn is_digit_byte(c: u8) -> bool {
    48u8 <= c && c <= 57u8
}

/// RFC 7230 `tchar`: the bytes a header name may hold.
pub open spec fn is_header_key_byte(c: u8) -> bool {
    ||| c == 33u8 || c == 35u8 || c == 36u8 || c == 37u8 || c == 38u8
    ||| c == 39u8 || c == 42u8 || c == 43u8 || c == 45u8 || c == 46u8
    ||| c == 94u8 || c == 95u8 || c == 96u8 || c == 124u8 || c == 126u8
    ||| 48u8 <= c && c <= 57u8
    ||| 97u8 <= c && c <= 122u8
    ||| 65u8 <= c && c <= 90u8
}

/// The bytes a header value may hold: anything but CR and LF (lenient).
pub open spec fn is_header_value_byte(c: u8) -> bool {
    c != CR && c != LF
}

/// True exactly on the bytes a header name may hold (RFC 7230 token).
pub fn header_key_char(c: u8) -> (r: bool)
    ensures
        r == is_header_key_byte(c),
{
    c == 33u8 || c == 35u8 || c == 36u8 || c == 37u8 || c == 38u8
        || c == 39u8 || c == 42u8 || c == 43u8 || c == 45u8 || c == 46u8
        || c == 94u8 || c == 95u8 || c == 96u8 || c == 124u8 || c == 126u8
        || (48u8 <= c && c <= 57u8)
        || (97u8 <= c && c <= 122u8)
        || (65u8 <= c && c <= 90u8)
}

/// True exactly on the bytes a header value may hold: all but CR and LF.
pub fn header_value_char(c: u8) -> (r: bool)
    ensures
        r == is_header_value_byte(c),
{
    c != CR && c != LF
}

/// The byte classes the grammar scans runs of.
#[derive(Clone, Copy, Debug, PartialEq, Eq, Structural)]
pub enum ByteClass {
    SpaceByte,
    WordByte,
    DigitByte,
    HeaderKeyByte,
    HeaderValueByte,
}

/// Whether byte `c` belongs to class `k`.
pub open spec fn class_holds(k: ByteClass, c: u8) -> bool {
    match k {
        ByteClass::SpaceByte => is_space_byte(c),
        ByteClass::WordByte => is_word_byte(c),
        ByteClass::DigitByte => is_digit_byte(c),
        ByteClass::HeaderKeyByte => is_header_key_byte(c),
        ByteClass::HeaderValueByte => is_header_value_byte(c),
    }
}

/// Exec form of `class_holds`.
pub fn class_matches(k: ByteClass, c: u8) -> (r: bool)
    ensures
        r == class_holds(k, c),
{
    match k {
        ByteClass::SpaceByte => c == SP || c == HTAB,
        ByteClass::WordByte => !(c == SP || c == HTAB),
        ByteClass::DigitByte => 48u8 <= c && c <= 57u8,
        ByteClass::HeaderKeyByte => header_key_char(c),
        ByteClass::HeaderValueByte => header_value_char(c),
    }
}

/// Outcome of one primitive scan.  `Found(e)` carries the position just past
/// what was recognized; `More` means the input ended before the scan could
/// decide; `Mismatch` means a byte in hand refuted it.
pub enum Scan {
    Found(int),
    More,
    Mismatch,
}

/// Scan the run of class-`k` bytes beginning at `p`: the result is the index
/// of the first byte outside the class.  Reaching the end of the input while
/// still inside the class is `More`: another chunk could extend the run.
pub open spec fn scan_while(s: Seq<u8>, p: int, k: ByteClass) -> Scan
    decreases s.len() - p,
{
    if p < 0 || p > s.len() {
        Scan::Mismatch
    } else if p == s.len() {
        Scan::More
    } else if !class_holds(k, s[p]) {
        Scan::Found(p)
    } else {
        scan_while(s, p + 1, k)
    }
}

/// Match the fixed bytes `t` at position `p`.  A short input that agrees so
/// far is `More`; a disagreeing byte is `Mismatch`; `Found` is the position
/// just past the tag.
pub open spec fn scan_tag(s: Seq<u8>, p: int, t: Seq<u8>) -> Scan
    decreases t.len(),
{
    if p < 0 || p > s.len() || t.len() < 0 {
        Scan::Mismatch
    } else if t.len() == 0 {
        Scan::Found(p)
    } else if p == s.len() {
        Scan::More
    } else if s[p] != t[0] {
        Scan::Mismatch
    } else {
        scan_tag(s, p + 1, t.skip(1))
    }
}

/// A `Found` run scan ends strictly inside the input, at or past its start.
pub proof fn lemma_scan_while_bounds(s: Seq<u8>, p: int, k: ByteClass)
    requires
        0 <= p <= s.len(),
    ensures
        scan_while(s, p, k) matches Scan::Found(e) ==> p <= e < s.len(),
    decreases s.len() - p,
{
    if p < s.len() && class_holds(k, s[p]) {
        lemma_scan_while_bounds(s, p + 1, k);
    }
}

/// A `Found` tag scan ends exactly one tag length on, within the input.
pub proof fn lemma_scan_tag_bounds(s: Seq<u8>, p: int, t: Seq<u8>)
    requires
        0 <= p <= s.len(),
    ensures
        scan_tag(s, p, t) matches Scan::Found(e) ==> e == p + t.len() && e <= s.len(),
    decreases t.len(),
{
    if t.len() > 0 && p < s.len() && s[p] == t[0] {
        lemma_scan_tag_bounds(s, p + 1, t.skip(1));
    }
}

/// Extending the input cannot overturn a decided run scan: what a prefix
/// found or refuted, the whole input finds or refutes alike.
pub proof fn lemma_scan_while_extend(s1: Seq<u8>, s2: Seq<u8>, p: int, k: ByteClass)
    requires
        0 <= p <= s1.len(),
        s1.len() <= s2.len(),
        s1 == s2.take(s1.len() as int),
    ensures
        !(scan_while(s1, p, k) is More) ==> scan_while(s2, p, k) == scan_while(s1, p, k),
    decreases s1.len() - p,
{
    assert forall|i: int| 0 <= i < s1.len() implies s1[i] == s2[i] by {
        assert(s2.take(s1.len() as int)[i] == s2[i]);
    }
    if p < s1.len() && class_holds(k, s1[p]) {
        lemma_scan_while_extend(s1, s2, p + 1, k);
    }
}

/// Extending the input cannot overturn a decided tag scan.
pub proof fn lemma_scan_tag_extend(s1: Seq<u8>, s2: Seq<u8>, p: int, t: Seq<u8>)
    requires
        0 <= p <= s1.len(),
        s1.len() <= s2.len(),
        s1 == s2.take(s1.len() as int),
    ensures
        !(scan_tag(s1, p, t) is More) ==> scan_tag(s2, p, t) == scan_tag(s1, p, t),
    decreases t.len(),
{
    assert forall|i: int| 0 <= i < s1.len() implies s1[i] == s2[i] by {
        assert(s2.take(s1.len() as int)[i] == s2[i]);
    }
    if t.len() > 0 && p < s1.len() && s1[p] == t[0] {
        lemma_scan_tag_extend(s1, s2, p + 1, t.skip(1));
    }
}

/// Exec run scan: `Some(e)` is the first index at or after `p` whose byte
/// falls outside class `k`; `None` means the input ended first.
pub fn scan_class(s: &[u8], p: usize, k: ByteClass) -> (r: Option<usize>)
    requires
        p <= s@.len(),
    ensures
        match r {
            Some(e) => scan_while(s@, p as int, k) == Scan::Found(e as int) && p <= e < s@.len(),
            None => scan_while(s@, p as int, k) is More,
        },
{
    let mut i: usize = p;
    while i < s.len()
        invariant
            p <= i <= s@.len(),
            scan_while(s@, p as int, k) == scan_while(s@, i as int, k),
        decreases s@.len() - i,
    {
        if !class_matches(k, s[i]) {
            return Some(i);
        }
        i = i + 1;
    }
    None
}

} // verus!

verus! {

/// A decided run scan that ended before `n` reads the same over just the
/// first `n` bytes: the run and the byte that ended it are all in hand.
pub proof fn lemma_scan_while_restrict(s: Seq<u8>, n: int, p: int, k: ByteClass)
    requires
        0 <= p <= n <= s.len(),
        scan_while(s, p, k) matches Scan::Found(e) && e < n,
    ensures
        scan_while(s.take(n), p, k) == scan_while(s, p, k),
    decreases n - p,
{
    if p < s.len() && class_holds(k, s[p]) {
        lemma_scan_while_bounds(s, p + 1, k);
        lemma_scan_while_restrict(s, n, p + 1, k);
    }
}

/// A tag matched wholly before `n` reads the same over just the first `n`
/// bytes.
pub proof fn lemma_scan_tag_restrict(s: Seq<u8>, n: int, p: int, t: Seq<u8>)
    requires
        0 <= p <= n <= s.len(),
        scan_tag(s, p, t) matches Scan::Found(e) && e <= n,
    ensures
        scan_tag(s.take(n), p, t) == scan_tag(s, p, t),
    decreases t.len(),
{
    lemma_scan_tag_bounds(s, p, t);
    if t.len() > 0 && p < s.len() && s[p] == t[0] {
        lemma_scan_tag_restrict(s, n, p + 1, t.skip(1));
    }
}

} // verus!
