//! The incremental request-head scanner.  One call parses everything
//! accumulated so far: a start line, header lines, and the terminating blank
//! line, and yields the value of the first `Sec-WebSocket-Key` header.  A
//! truncated head is "incomplete" — the caller reads more bytes and retries
//! over the whole buffer — and extending the buffer can never overturn a
//! completed parse or a parse error, only settle an incomplete one.

use vstd::prelude::*;

use crate::scan::{
    ByteClass, Scan, class_holds, scan_tag, scan_while, lemma_scan_while_bounds,
    lemma_scan_tag_bounds, lemma_scan_while_extend, lemma_scan_tag_extend,
    lemma_scan_while_restrict, lemma_scan_tag_restrict, scan_class, CR, LF, COLON,
};

verus! {

/// ASCII code of `.`, the separator inside the HTTP version.
pub const DOT: u8 = 46;

/// The bytes of `\r\n`.
pub open spec fn crlf() -> Seq<u8> {
    seq![CR, LF]
}

/// The bytes of `HTTP/`.
pub open spec fn http_slash() -> Seq<u8> {
    seq![72u8, 84u8, 84u8, 80u8, 47u8]
}

/// The bytes of `Sec-WebSocket-Key`.
pub open spec fn key_header_name() -> Seq<u8> {
    seq![
        83u8, 101u8, 99u8, 45u8, 87u8, 101u8, 98u8, 83u8, 111u8, 99u8, 107u8, 101u8, 116u8,
        45u8, 75u8, 101u8, 121u8,
    ]
}

/// ASCII lower-casing of one byte.
pub open spec fn lower_byte(c: u8) -> u8 {
    if 65u8 <= c && c <= 90u8 {
        (c + 32) as u8
    } else {
        c
    }
}

/// Case-insensitive equality of two byte strings, ASCII letters only.
pub open spec fn bytes_eq_nocase(a: Seq<u8>, b: Seq<u8>) -> bool {
    a.len() == b.len() && forall|i: int| 0 <= i < a.len() ==> lower_byte(a[i]) == lower_byte(b[i])
}

/// Whether a header name names the key header, matched case-insensitively.
pub open spec fn is_key_header_name(name: Seq<u8>) -> bool {
    bytes_eq_nocase(name, key_header_name())
}

/// Matching the key header name looks only at letters up to case: names that
/// agree up to ASCII case are either both the key header's name or neither.
pub proof fn lemma_key_match_ignores_case(a: Seq<u8>, b: Seq<u8>)
    requires
        bytes_eq_nocase(a, b),
    ensures
        is_key_header_name(a) <==> is_key_header_name(b),
{
}

/// Scan `HTTP/<digits>.<digits>\r\n` at `p`.
pub open spec fn scan_version(s: Seq<u8>, p: int) -> Scan {
    match scan_tag(s, p, http_slash()) {
        Scan::More => Scan::More,
        Scan::Mismatch => Scan::Mismatch,
        Scan::Found(h) => match scan_while(s, h, ByteClass::DigitByte) {
            Scan::More => Scan::More,
            Scan::Mismatch => Scan::Mismatch,
            Scan::Found(d1) => if d1 == h {
                Scan::Mismatch
            } else {
                match scan_tag(s, d1, seq![DOT]) {
                    Scan::More => Scan::More,
                    Scan::Mismatch => Scan::Mismatch,
                    Scan::Found(q) => match scan_while(s, q, ByteClass::DigitByte) {
                        Scan::More => Scan::More,
                        Scan::Mismatch => Scan::Mismatch,
                        Scan::Found(d2) => if d2 == q {
                            Scan::Mismatch
                        } else {
                            scan_tag(s, d2, crlf())
                        },
                    },
                }
            },
        },
    }
}

/// Scan the start line at `p`: a method token, spaces, a target token,
/// spaces, then the version and its line terminator.
pub open spec fn scan_start_line(s: Seq<u8>, p: int) -> Scan {
    match scan_while(s, p, ByteClass::WordByte) {
        Scan::More => Scan::More,
        Scan::Mismatch => Scan::Mismatch,
        Scan::Found(m) => if m == p {
            Scan::Mismatch
        } else {
            match scan_while(s, m, ByteClass::SpaceByte) {
                Scan::More => Scan::More,
                Scan::Mismatch => Scan::Mismatch,
                Scan::Found(a) => if a == m {
                    Scan::Mismatch
                } else {
                    match scan_while(s, a, ByteClass::WordByte) {
                        Scan::More => Scan::More,
                        Scan::Mismatch => Scan::Mismatch,
                        Scan::Found(t) => if t == a {
                            Scan::Mismatch
                        } else {
                            match scan_while(s, t, ByteClass::SpaceByte) {
                                Scan::More => Scan::More,
                                Scan::Mismatch => Scan::Mismatch,
                                Scan::Found(b) => if b == t {
                                    Scan::Mismatch
                                } else {
                                    scan_version(s, b)
                                },
                            }
                        },
                    }
                },
            }
        },
    }
}

/// Outcome of scanning one header line.
pub enum LineScan {
    More,
    Mismatch,
    Line { end: int, name: Seq<u8>, value: Seq<u8> },
}

/// Scan one header line at `p`: a token name, optional spaces, a colon,
/// optional spaces, a value of any bytes but CR and LF (so a value keeps its
/// trailing spaces), and the line terminator.
pub open spec fn scan_header_line(s: Seq<u8>, p: int) -> LineScan {
    match scan_while(s, p, ByteClass::HeaderKeyByte) {
        Scan::More => LineScan::More,
        Scan::Mismatch => LineScan::Mismatch,
        Scan::Found(ne) => if ne == p {
            LineScan::Mismatch
        } else {
            match scan_while(s, ne, ByteClass::SpaceByte) {
                Scan::More => LineScan::More,
                Scan::Mismatch => LineScan::Mismatch,
                Scan::Found(c0) => match scan_tag(s, c0, seq![COLON]) {
                    Scan::More => LineScan::More,
                    Scan::Mismatch => LineScan::Mismatch,
                    Scan::Found(c1) => match scan_while(s, c1, ByteClass::SpaceByte) {
                        Scan::More => LineScan::More,
                        Scan::Mismatch => LineScan::Mismatch,
                        Scan::Found(vs) => match scan_while(s, vs, ByteClass::HeaderValueByte) {
                            Scan::More => LineScan::More,
                            Scan::Mismatch => LineScan::Mismatch,
                            Scan::Found(ve) => match scan_tag(s, ve, crlf()) {
                                Scan::More => LineScan::More,
                                Scan::Mismatch => LineScan::Mismatch,
                                Scan::Found(e) => LineScan::Line {
                                    end: e,
                                    name: s.subrange(p, ne),
                                    value: s.subrange(vs, ve),
                                },
                            },
                        },
                    },
                },
            }
        },
    }
}

/// Outcome of scanning the whole head.
pub enum HeadScan {
    More,
    Mismatch,
    Head { end: int, key: Option<Seq<u8>> },
}

/// Scan header lines from `p` until the blank line, keeping the value of the
/// first key header seen (`key` carries it across lines; first match wins).
/// Where a line does not open as a header, the blank line must stand.
pub open spec fn scan_headers(s: Seq<u8>, p: int, key: Option<Seq<u8>>) -> HeadScan
    decreases s.len() - p,
{
    if p < 0 || p > s.len() {
        HeadScan::Mismatch
    } else {
        match scan_header_line(s, p) {
            LineScan::More => HeadScan::More,
            LineScan::Line { end, name, value } => if p < end <= s.len() {
                scan_headers(
                    s,
                    end,
                    if key is None && is_key_header_name(name) {
                        Some(value)
                    } else {
                        key
                    },
                )
            } else {
                // dead branch: a scanned line always ends past where it began
                HeadScan::Mismatch
            },
            LineScan::Mismatch => match scan_tag(s, p, crlf()) {
                Scan::More => HeadScan::More,
                Scan::Mismatch => HeadScan::Mismatch,
                Scan::Found(e) => HeadScan::Head { end: e, key },
            },
        }
    }
}

/// Scan a full request head from the first byte.
pub open spec fn parse_head(s: Seq<u8>) -> HeadScan {
    match scan_start_line(s, 0) {
        Scan::More => HeadScan::More,
        Scan::Mismatch => HeadScan::Mismatch,
        Scan::Found(e) => scan_headers(s, e, None),
    }
}

/// What one parse over the accumulated bytes says about the key.
pub enum KeyQuery {
    /// The bytes are a proper prefix of some head: read more and retry.
    Incomplete,
    /// The bytes can never open a head: a permanent parse error.
    Malformed,
    /// A complete head stands, but no key header is in it.
    MissingKey,
    /// A complete head of `consumed` bytes stands and `key` is the value of
    /// its first key header.
    Found { consumed: int, key: Seq<u8> },
}

/// The extractor's answer over everything accumulated so far.
pub open spec fn key_extraction(s: Seq<u8>) -> KeyQuery {
    match parse_head(s) {
        HeadScan::More => KeyQuery::Incomplete,
        HeadScan::Mismatch => KeyQuery::Malformed,
        HeadScan::Head { end, key: Some(k) } => KeyQuery::Found { consumed: end, key: k },
        HeadScan::Head { end, key: None } => KeyQuery::MissingKey,
    }
}

/// A found version ends within the input, past where it began.
pub proof fn lemma_version_bounds(s: Seq<u8>, p: int)
    requires
        0 <= p <= s.len(),
    ensures
        scan_version(s, p) matches Scan::Found(e) ==> p < e <= s.len(),
{
    lemma_scan_tag_bounds(s, p, http_slash());
    if let Scan::Found(h) = scan_tag(s, p, http_slash()) {
        lemma_scan_while_bounds(s, h, ByteClass::DigitByte);
        if let Scan::Found(d1) = scan_while(s, h, ByteClass::DigitByte) {
            lemma_scan_tag_bounds(s, d1, seq![DOT]);
            if let Scan::Found(q) = scan_tag(s, d1, seq![DOT]) {
                lemma_scan_while_bounds(s, q, ByteClass::DigitByte);
                if let Scan::Found(d2) = scan_while(s, q, ByteClass::DigitByte) {
                    lemma_scan_tag_bounds(s, d2, crlf());
                }
            }
        }
    }
}

/// A found start line ends within the input, past where it began.
pub proof fn lemma_start_line_bounds(s: Seq<u8>, p: int)
    requires
        0 <= p <= s.len(),
    ensures
        scan_start_line(s, p) matches Scan::Found(e) ==> p < e <= s.len(),
{
    lemma_scan_while_bounds(s, p, ByteClass::WordByte);
    if let Scan::Found(m) = scan_while(s, p, ByteClass::WordByte) {
        lemma_scan_while_bounds(s, m, ByteClass::SpaceByte);
        if let Scan::Found(a) = scan_while(s, m, ByteClass::SpaceByte) {
            lemma_scan_while_bounds(s, a, ByteClass::WordByte);
            if let Scan::Found(t) = scan_while(s, a, ByteClass::WordByte) {
                lemma_scan_while_bounds(s, t, ByteClass::SpaceByte);
                if let Scan::Found(b) = scan_while(s, t, ByteClass::SpaceByte) {
                    lemma_version_bounds(s, b);
                }
            }
        }
    }
}

/// A scanned header line ends within the input, past where it began.
pub proof fn lemma_header_line_bounds(s: Seq<u8>, p: int)
    requires
        0 <= p <= s.len(),
    ensures
        scan_header_line(s, p) matches LineScan::Line { end, .. } ==> p < end <= s.len(),
{
    lemma_scan_while_bounds(s, p, ByteClass::HeaderKeyByte);
    if let Scan::Found(ne) = scan_while(s, p, ByteClass::HeaderKeyByte) {
        lemma_scan_while_bounds(s, ne, ByteClass::SpaceByte);
        if let Scan::Found(c0) = scan_while(s, ne, ByteClass::SpaceByte) {
            lemma_scan_tag_bounds(s, c0, seq![COLON]);
            if let Scan::Found(c1) = scan_tag(s, c0, seq![COLON]) {
                lemma_scan_while_bounds(s, c1, ByteClass::SpaceByte);
                if let Scan::Found(vs) = scan_while(s, c1, ByteClass::SpaceByte) {
                    lemma_scan_while_bounds(s, vs, ByteClass::HeaderValueByte);
                    if let Scan::Found(ve) = scan_while(s, vs, ByteClass::HeaderValueByte) {
                        lemma_scan_tag_bounds(s, ve, crlf());
                    }
                }
            }
        }
    }
}

/// A scanned head ends within the input.
pub proof fn lemma_headers_bounds(s: Seq<u8>, p: int, key: Option<Seq<u8>>)
    requires
        0 <= p <= s.len(),
    ensures
        scan_headers(s, p, key) matches HeadScan::Head { end, .. } ==> p < end <= s.len(),
    decreases s.len() - p,
{
    lemma_header_line_bounds(s, p);
    match scan_header_line(s, p) {
        LineScan::Line { end, name, value } => {
            lemma_headers_bounds(
                s,
                end,
                if key is None && is_key_header_name(name) {
                    Some(value)
                } else {
                    key
                },
            );
        },
        LineScan::Mismatch => {
            lemma_scan_tag_bounds(s, p, crlf());
        },
        LineScan::More => {},
    }
}

/// A completed head ends within the input.
pub proof fn lemma_parse_head_bounds(s: Seq<u8>)
    ensures
        parse_head(s) matches HeadScan::Head { end, .. } ==> 0 < end <= s.len(),
{
    lemma_start_line_bounds(s, 0);
    if let Scan::Found(e) = scan_start_line(s, 0) {
        lemma_headers_bounds(s, e, None);
    }
}

/// Extending the input cannot overturn a decided version scan.
pub proof fn lemma_version_extend(s1: Seq<u8>, s2: Seq<u8>, p: int)
    requires
        0 <= p <= s1.len(),
        s1.len() <= s2.len(),
        s1 == s2.take(s1.len() as int),
    ensures
        !(scan_version(s1, p) is More) ==> scan_version(s2, p) == scan_version(s1, p),
{
    lemma_scan_tag_extend(s1, s2, p, http_slash());
    lemma_scan_tag_bounds(s1, p, http_slash());
    if let Scan::Found(h) = scan_tag(s1, p, http_slash()) {
        lemma_scan_while_extend(s1, s2, h, ByteClass::DigitByte);
        lemma_scan_while_bounds(s1, h, ByteClass::DigitByte);
        if let Scan::Found(d1) = scan_while(s1, h, ByteClass::DigitByte) {
            lemma_scan_tag_extend(s1, s2, d1, seq![DOT]);
            lemma_scan_tag_bounds(s1, d1, seq![DOT]);
            if let Scan::Found(q) = scan_tag(s1, d1, seq![DOT]) {
                lemma_scan_while_extend(s1, s2, q, ByteClass::DigitByte);
                lemma_scan_while_bounds(s1, q, ByteClass::DigitByte);
                if let Scan::Found(d2) = scan_while(s1, q, ByteClass::DigitByte) {
                    lemma_scan_tag_extend(s1, s2, d2, crlf());
                }
            }
        }
    }
}

/// Extending the input cannot overturn a decided start-line scan.
pub proof fn lemma_start_line_extend(s1: Seq<u8>, s2: Seq<u8>, p: int)
    requires
        0 <= p <= s1.len(),
        s1.len() <= s2.len(),
        s1 == s2.take(s1.len() as int),
    ensures
        !(scan_start_line(s1, p) is More) ==> scan_start_line(s2, p) == scan_start_line(s1, p),
{
    lemma_scan_while_extend(s1, s2, p, ByteClass::WordByte);
    lemma_scan_while_bounds(s1, p, ByteClass::WordByte);
    if let Scan::Found(m) = scan_while(s1, p, ByteClass::WordByte) {
        lemma_scan_while_extend(s1, s2, m, ByteClass::SpaceByte);
        lemma_scan_while_bounds(s1, m, ByteClass::SpaceByte);
        if let Scan::Found(a) = scan_while(s1, m, ByteClass::SpaceByte) {
            lemma_scan_while_extend(s1, s2, a, ByteClass::WordByte);
            lemma_scan_while_bounds(s1, a, ByteClass::WordByte);
            if let Scan::Found(t) = scan_while(s1, a, ByteClass::WordByte) {
                lemma_scan_while_extend(s1, s2, t, ByteClass::SpaceByte);
                lemma_scan_while_bounds(s1, t, ByteClass::SpaceByte);
                if let Scan::Found(b) = scan_while(s1, t, ByteClass::SpaceByte) {
                    lemma_version_extend(s1, s2, b);
                }
            }
        }
    }
}

/// Extending the input cannot overturn a scanned or refuted header line, and
/// what it scanned — name, value, end — stands unchanged.
pub proof fn lemma_header_line_extend(s1: Seq<u8>, s2: Seq<u8>, p: int)
    requires
        0 <= p <= s1.len(),
        s1.len() <= s2.len(),
        s1 == s2.take(s1.len() as int),
    ensures
        !(scan_header_line(s1, p) is More) ==> scan_header_line(s2, p) == scan_header_line(s1, p),
{
    lemma_scan_while_extend(s1, s2, p, ByteClass::HeaderKeyByte);
    lemma_scan_while_bounds(s1, p, ByteClass::HeaderKeyByte);
    if let Scan::Found(ne) = scan_while(s1, p, ByteClass::HeaderKeyByte) {
        lemma_scan_while_extend(s1, s2, ne, ByteClass::SpaceByte);
        lemma_scan_while_bounds(s1, ne, ByteClass::SpaceByte);
        if let Scan::Found(c0) = scan_while(s1, ne, ByteClass::SpaceByte) {
            lemma_scan_tag_extend(s1, s2, c0, seq![COLON]);
            lemma_scan_tag_bounds(s1, c0, seq![COLON]);
            if let Scan::Found(c1) = scan_tag(s1, c0, seq![COLON]) {
                lemma_scan_while_extend(s1, s2, c1, ByteClass::SpaceByte);
                lemma_scan_while_bounds(s1, c1, ByteClass::SpaceByte);
                if let Scan::Found(vs) = scan_while(s1, c1, ByteClass::SpaceByte) {
                    lemma_scan_while_extend(s1, s2, vs, ByteClass::HeaderValueByte);
                    lemma_scan_while_bounds(s1, vs, ByteClass::HeaderValueByte);
                    if let Scan::Found(ve) = scan_while(s1, vs, ByteClass::HeaderValueByte) {
                        lemma_scan_tag_extend(s1, s2, ve, crlf());
                        lemma_scan_tag_bounds(s1, ve, crlf());
                        if let Scan::Found(e) = scan_tag(s1, ve, crlf()) {
                            assert(s1.subrange(p, ne) =~= s2.subrange(p, ne));
                            assert(s1.subrange(vs, ve) =~= s2.subrange(vs, ve));
                        }
                    }
                }
            }
        }
    }
}

/// Extending the input cannot overturn a decided header-block scan.
pub proof fn lemma_headers_extend(s1: Seq<u8>, s2: Seq<u8>, p: int, key: Option<Seq<u8>>)
    requires
        0 <= p <= s1.len(),
        s1.len() <= s2.len(),
        s1 == s2.take(s1.len() as int),
    ensures
        !(scan_headers(s1, p, key) is More) ==> scan_headers(s2, p, key) == scan_headers(
            s1,
            p,
            key,
        ),
    decreases s1.len() - p,
{
    lemma_header_line_extend(s1, s2, p);
    lemma_header_line_bounds(s1, p);
    match scan_header_line(s1, p) {
        LineScan::Line { end, name, value } => {
            lemma_headers_extend(
                s1,
                s2,
                end,
                if key is None && is_key_header_name(name) {
                    Some(value)
                } else {
                    key
                },
            );
        },
        LineScan::Mismatch => {
            lemma_scan_tag_extend(s1, s2, p, crlf());
        },
        LineScan::More => {},
    }
}

/// Extending the accumulated bytes cannot overturn a decided parse: a head
/// once complete, or bytes once refuted, read the same in every extension.
pub proof fn lemma_parse_head_extend(s1: Seq<u8>, s2: Seq<u8>)
    requires
        s1.len() <= s2.len(),
        s1 == s2.take(s1.len() as int),
    ensures
        !(parse_head(s1) is More) ==> parse_head(s2) == parse_head(s1),
{
    lemma_start_line_extend(s1, s2, 0);
    lemma_start_line_bounds(s1, 0);
    if let Scan::Found(e) = scan_start_line(s1, 0) {
        lemma_headers_extend(s1, s2, e, None);
    }
}

/// A version found wholly before `n` reads the same over the first `n`
/// bytes alone.
pub proof fn lemma_version_restrict(s: Seq<u8>, n: int, p: int)
    requires
        0 <= p <= n <= s.len(),
        scan_version(s, p) matches Scan::Found(e) && e <= n,
    ensures
        scan_version(s.take(n), p) == scan_version(s, p),
{
    if let Scan::Found(h) = scan_tag(s, p, http_slash()) {
        lemma_scan_tag_bounds(s, p, http_slash());
        if let Scan::Found(d1) = scan_while(s, h, ByteClass::DigitByte) {
            lemma_scan_while_bounds(s, h, ByteClass::DigitByte);
            if let Scan::Found(q) = scan_tag(s, d1, seq![DOT]) {
                lemma_scan_tag_bounds(s, d1, seq![DOT]);
                if let Scan::Found(d2) = scan_while(s, q, ByteClass::DigitByte) {
                    lemma_scan_while_bounds(s, q, ByteClass::DigitByte);
                    lemma_scan_tag_bounds(s, d2, crlf());
                    lemma_scan_tag_restrict(s, n, p, http_slash());
                    lemma_scan_while_restrict(s, n, h, ByteClass::DigitByte);
                    lemma_scan_tag_restrict(s, n, d1, seq![DOT]);
                    lemma_scan_while_restrict(s, n, q, ByteClass::DigitByte);
                    lemma_scan_tag_restrict(s, n, d2, crlf());
                }
            }
        }
    }
}

/// A start line found wholly before `n` reads the same over the first `n`
/// bytes alone.
pub proof fn lemma_start_line_restrict(s: Seq<u8>, n: int, p: int)
    requires
        0 <= p <= n <= s.len(),
        scan_start_line(s, p) matches Scan::Found(e) && e <= n,
    ensures
        scan_start_line(s.take(n), p) == scan_start_line(s, p),
{
    if let Scan::Found(m) = scan_while(s, p, ByteClass::WordByte) {
        lemma_scan_while_bounds(s, p, ByteClass::WordByte);
        if let Scan::Found(a) = scan_while(s, m, ByteClass::SpaceByte) {
            lemma_scan_while_bounds(s, m, ByteClass::SpaceByte);
            if let Scan::Found(t) = scan_while(s, a, ByteClass::WordByte) {
                lemma_scan_while_bounds(s, a, ByteClass::WordByte);
                if let Scan::Found(b) = scan_while(s, t, ByteClass::SpaceByte) {
                    lemma_scan_while_bounds(s, t, ByteClass::SpaceByte);
                    lemma_version_bounds(s, b);
                    lemma_scan_while_restrict(s, n, p, ByteClass::WordByte);
                    lemma_scan_while_restrict(s, n, m, ByteClass::SpaceByte);
                    lemma_scan_while_restrict(s, n, a, ByteClass::WordByte);
                    lemma_scan_while_restrict(s, n, t, ByteClass::SpaceByte);
                    lemma_version_restrict(s, n, b);
                }
            }
        }
    }
}

/// A header line scanned wholly before `n` reads the same — name, value and
/// end — over the first `n` bytes alone.
pub proof fn lemma_header_line_restrict(s: Seq<u8>, n: int, p: int)
    requires
        0 <= p <= n <= s.len(),
        scan_header_line(s, p) matches LineScan::Line { end, .. } && end <= n,
    ensures
        scan_header_line(s.take(n), p) == scan_header_line(s, p),
{
    if let Scan::Found(ne) = scan_while(s, p, ByteClass::HeaderKeyByte) {
        lemma_scan_while_bounds(s, p, ByteClass::HeaderKeyByte);
        if let Scan::Found(c0) = scan_while(s, ne, ByteClass::SpaceByte) {
            lemma_scan_while_bounds(s, ne, ByteClass::SpaceByte);
            if let Scan::Found(c1) = scan_tag(s, c0, seq![COLON]) {
                lemma_scan_tag_bounds(s, c0, seq![COLON]);
                if let Scan::Found(vs) = scan_while(s, c1, ByteClass::SpaceByte) {
                    lemma_scan_while_bounds(s, c1, ByteClass::SpaceByte);
                    if let Scan::Found(ve) = scan_while(s, vs, ByteClass::HeaderValueByte) {
                        lemma_scan_while_bounds(s, vs, ByteClass::HeaderValueByte);
                        lemma_scan_tag_bounds(s, ve, crlf());
                        lemma_scan_while_restrict(s, n, p, ByteClass::HeaderKeyByte);
                        lemma_scan_while_restrict(s, n, ne, ByteClass::SpaceByte);
                        lemma_scan_tag_restrict(s, n, c0, seq![COLON]);
                        lemma_scan_while_restrict(s, n, c1, ByteClass::SpaceByte);
                        lemma_scan_while_restrict(s, n, vs, ByteClass::HeaderValueByte);
                        lemma_scan_tag_restrict(s, n, ve, crlf());
                        assert(s.take(n).subrange(p, ne) =~= s.subrange(p, ne));
                        assert(s.take(n).subrange(vs, ve) =~= s.subrange(vs, ve));
                    }
                }
            }
        }
    }
}

/// A header block completed wholly before `n` reads the same over the first
/// `n` bytes alone.
pub proof fn lemma_headers_restrict(s: Seq<u8>, n: int, p: int, key: Option<Seq<u8>>)
    requires
        0 <= p <= n <= s.len(),
        scan_headers(s, p, key) matches HeadScan::Head { end, .. } && end <= n,
    ensures
        scan_headers(s.take(n), p, key) == scan_headers(s, p, key),
    decreases s.len() - p,
{
    lemma_header_line_bounds(s, p);
    match scan_header_line(s, p) {
        LineScan::Line { end: le, name, value } => {
            let key2 = if key is None && is_key_header_name(name) {
                Some(value)
            } else {
                key
            };
            lemma_headers_bounds(s, le, key2);
            lemma_header_line_restrict(s, n, p);
            lemma_headers_restrict(s, n, le, key2);
        },
        LineScan::Mismatch => {
            // The block ends here, so a blank line stands: its carriage
            // return is what refuted the header line, within the first `n`
            // bytes, and it refutes it over the truncation too.
            lemma_scan_tag_bounds(s, p, crlf());
            if let Scan::Found(e) = scan_tag(s, p, crlf()) {
                if p == s.len() {
                    assert(scan_tag(s, p, crlf()) is More);
                }
                if s[p] != CR {
                    assert(scan_tag(s, p, crlf()) is Mismatch);
                }
                assert(scan_while(s.take(n), p, ByteClass::HeaderKeyByte) == Scan::Found(p));
                assert(scan_header_line(s.take(n), p) is Mismatch);
                lemma_scan_tag_restrict(s, n, p, crlf());
            }
        },
        LineScan::More => {},
    }
}

/// A completed head is self-contained: the first `end` bytes alone — the
/// bytes the head says it consumed — parse to the very same head, so the
/// caller who drops exactly those bytes has dropped the head and nothing
/// else.
pub proof fn lemma_head_self_contained(s: Seq<u8>, end: int, key: Option<Seq<u8>>)
    requires
        parse_head(s) == (HeadScan::Head { end, key }),
    ensures
        parse_head(s.take(end)) == (HeadScan::Head { end, key }),
{
    lemma_parse_head_bounds(s);
    lemma_start_line_bounds(s, 0);
    if let Scan::Found(e0) = scan_start_line(s, 0) {
        lemma_headers_bounds(s, e0, None);
        lemma_start_line_restrict(s, end, 0);
        lemma_headers_restrict(s, end, e0, None);
    }
}

/// The `consumed` count reported beside a key is exact: the first
/// `consumed` bytes alone already yield the same key.
pub proof fn lemma_consumed_is_exact(s: Seq<u8>, consumed: int, key: Seq<u8>)
    requires
        key_extraction(s) == (KeyQuery::Found { consumed, key }),
    ensures
        key_extraction(s.take(consumed)) == (KeyQuery::Found { consumed, key }),
{
    lemma_head_self_contained(s, consumed, Some(key));
}

/// A buffer whose start line is refuted is a permanent parse error: no
/// bytes appended later can mend it (see `lemma_parse_head_extend`).
pub proof fn lemma_refuted_start_line_is_malformed(s: Seq<u8>)
    requires
        scan_start_line(s, 0) is Mismatch,
    ensures
        key_extraction(s) == KeyQuery::Malformed,
{
}

/// A header line that opens with a name but meets no colon after it poisons
/// the head: wherever the header block reaches it, the scan is refuted — a
/// permanent error, never mere incompleteness.
pub proof fn lemma_colonless_header_is_malformed(
    s: Seq<u8>,
    p: int,
    ne: int,
    c0: int,
    key: Option<Seq<u8>>,
)
    requires
        0 <= p <= s.len(),
        scan_while(s, p, ByteClass::HeaderKeyByte) == Scan::Found(ne),
        p < ne,
        scan_while(s, ne, ByteClass::SpaceByte) == Scan::Found(c0),
        scan_tag(s, c0, seq![COLON]) is Mismatch,
    ensures
        scan_headers(s, p, key) is Mismatch,
{
    // The line itself is refuted at the colon.
    assert(scan_header_line(s, p) is Mismatch);
    // And the blank line cannot stand here either: the first byte is a name
    // byte, so not a carriage return.
    assert(p < s.len());
    if !class_holds(ByteClass::HeaderKeyByte, s[p]) {
        assert(scan_while(s, p, ByteClass::HeaderKeyByte) == Scan::Found(p));
        assert(false);
    }
    assert(s[p] != CR);
    assert(scan_tag(s, p, crlf()) is Mismatch);
}

/// Feeding any strict prefix of a valid request head yields "incomplete" —
/// never an error and never an early completion — however the bytes were
/// chunked; the full bytes then parse to the same completed head.
pub proof fn lemma_prefix_of_head_incomplete(full: Seq<u8>, n: int)
    requires
        0 <= n < full.len(),
        parse_head(full) matches HeadScan::Head { end, .. } && end == full.len(),
    ensures
        key_extraction(full.take(n)) == KeyQuery::Incomplete,
{
    let part = full.take(n);
    assert(part == full.take(part.len() as int));
    lemma_parse_head_extend(part, full);
    lemma_parse_head_bounds(part);
    match parse_head(part) {
        HeadScan::More => {},
        HeadScan::Mismatch => {
            assert(parse_head(full) is Mismatch);
        },
        HeadScan::Head { end, key } => {
            assert(parse_head(full) == parse_head(part));
        },
    }
}

} // verus!

// ------------------------------------------------------------------
// Executable scanners
// ------------------------------------------------------------------

use crate::ErrorKind;

verus! {

/// Exec outcome of one tag scan.
enum TagStep {
    Hit(usize),
    NeedMore,
    NoMatch,
}

/// Match one byte `b` at `p`.
fn scan_byte(s: &[u8], p: usize, b: u8) -> (r: TagStep)
    requires
        p <= s@.len(),
    ensures
        match r {
            TagStep::Hit(e) => scan_tag(s@, p as int, seq![b]) == Scan::Found(e as int) && e == p
                + 1 && e <= s@.len(),
            TagStep::NeedMore => scan_tag(s@, p as int, seq![b]) is More,
            TagStep::NoMatch => scan_tag(s@, p as int, seq![b]) is Mismatch,
        },
{
    proof {
        reveal_with_fuel(scan_tag, 3);
        assert(seq![b].skip(1) =~= Seq::<u8>::empty());
    }
    if p == s.len() {
        TagStep::NeedMore
    } else if s[p] != b {
        TagStep::NoMatch
    } else {
        TagStep::Hit(p + 1)
    }
}

/// Match `\r\n` at `p`.
fn scan_crlf(s: &[u8], p: usize) -> (r: TagStep)
    requires
        p <= s@.len(),
    ensures
        match r {
            TagStep::Hit(e) => scan_tag(s@, p as int, crlf()) == Scan::Found(e as int) && p < e
                <= s@.len(),
            TagStep::NeedMore => scan_tag(s@, p as int, crlf()) is More,
            TagStep::NoMatch => scan_tag(s@, p as int, crlf()) is Mismatch,
        },
{
    proof {
        reveal_with_fuel(scan_tag, 4);
        assert(crlf().skip(1) =~= seq![LF]);
        assert(seq![LF].skip(1) =~= Seq::<u8>::empty());
    }
    if p == s.len() {
        TagStep::NeedMore
    } else if s[p] != CR {
        TagStep::NoMatch
    } else if p + 1 == s.len() {
        TagStep::NeedMore
    } else if s[p + 1] != LF {
        TagStep::NoMatch
    } else {
        TagStep::Hit(p + 2)
    }
}

/// Match `HTTP/` at `p`.
fn scan_http_slash(s: &[u8], p: usize) -> (r: TagStep)
    requires
        p <= s@.len(),
    ensures
        match r {
            TagStep::Hit(e) => scan_tag(s@, p as int, http_slash()) == Scan::Found(e as int) && p
                < e <= s@.len(),
            TagStep::NeedMore => scan_tag(s@, p as int, http_slash()) is More,
            TagStep::NoMatch => scan_tag(s@, p as int, http_slash()) is Mismatch,
        },
{
    proof {
        reveal_with_fuel(scan_tag, 7);
        assert(http_slash().skip(1) =~= seq![84u8, 84u8, 80u8, 47u8]);
        assert(seq![84u8, 84u8, 80u8, 47u8].skip(1) =~= seq![84u8, 80u8, 47u8]);
        assert(seq![84u8, 80u8, 47u8].skip(1) =~= seq![80u8, 47u8]);
        assert(seq![80u8, 47u8].skip(1) =~= seq![47u8]);
        assert(seq![47u8].skip(1) =~= Seq::<u8>::empty());
    }
    if p == s.len() {
        TagStep::NeedMore
    } else if s[p] != 72u8 {
        TagStep::NoMatch
    } else if p + 1 == s.len() {
        TagStep::NeedMore
    } else if s[p + 1] != 84u8 {
        TagStep::NoMatch
    } else if p + 2 == s.len() {
        TagStep::NeedMore
    } else if s[p + 2] != 84u8 {
        TagStep::NoMatch
    } else if p + 3 == s.len() {
        TagStep::NeedMore
    } else if s[p + 3] != 80u8 {
        TagStep::NoMatch
    } else if p + 4 == s.len() {
        TagStep::NeedMore
    } else if s[p + 4] != 47u8 {
        TagStep::NoMatch
    } else {
        TagStep::Hit(p + 5)
    }
}

/// ASCII lower-casing of one byte.
fn ascii_lower(c: u8) -> (r: u8)
    ensures
        r == lower_byte(c),
{
    if 65u8 <= c && c <= 90u8 {
        c + 32
    } else {
        c
    }
}

/// The expected key header name, as bytes.
fn key_name_vec() -> (v: Vec<u8>)
    ensures
        v@ == key_header_name(),
{
    let mut v: Vec<u8> = Vec::new();
    v.push(83u8);
    v.push(101u8);
    v.push(99u8);
    v.push(45u8);
    v.push(87u8);
    v.push(101u8);
    v.push(98u8);
    v.push(83u8);
    v.push(111u8);
    v.push(99u8);
    v.push(107u8);
    v.push(101u8);
    v.push(116u8);
    v.push(45u8);
    v.push(75u8);
    v.push(101u8);
    v.push(121u8);
    proof {
        assert(v@ =~= key_header_name());
    }
    v
}

/// Whether `s[ns..ne]` is the key header's name, case-insensitively.
fn name_is_key(s: &[u8], ns: usize, ne: usize) -> (r: bool)
    requires
        ns <= ne <= s@.len(),
    ensures
        r == is_key_header_name(s@.subrange(ns as int, ne as int)),
{
    let expect = key_name_vec();
    let name_len = ne - ns;
    if name_len != expect.len() {
        return false;
    }
    let ghost sub = s@.subrange(ns as int, ne as int);
    let mut i: usize = 0;
    while i < name_len
        invariant
            0 <= i <= name_len,
            name_len == ne - ns,
            ns <= ne <= s@.len(),
            expect@ == key_header_name(),
            name_len == expect@.len(),
            sub == s@.subrange(ns as int, ne as int),
            sub.len() == name_len,
            forall|j: int| 0 <= j < i ==> lower_byte(sub[j]) == lower_byte(key_header_name()[j]),
        decreases name_len - i,
    {
        if ascii_lower(s[ns + i]) != ascii_lower(expect[i]) {
            assert(sub[i as int] == s@[ns + i]);
            return false;
        }
        assert(sub[i as int] == s@[ns + i]);
        i = i + 1;
    }
    true
}

/// Copy `s[a..b]` into a fresh vector.
fn copy_range(s: &[u8], a: usize, b: usize) -> (v: Vec<u8>)
    requires
        a <= b <= s@.len(),
    ensures
        v@ == s@.subrange(a as int, b as int),
{
    let mut v: Vec<u8> = Vec::new();
    let mut i: usize = a;
    while i < b
        invariant
            a <= i <= b <= s@.len(),
            v@ == s@.subrange(a as int, i as int),
        decreases b - i,
    {
        v.push(s[i]);
        assert(s@.subrange(a as int, i + 1) =~= s@.subrange(a as int, i as int).push(s@[i as int]));
        i = i + 1;
    }
    v
}

/// Exec outcome of one header-line scan; positions index the input.
enum LineStep {
    Line { end: usize, name_start: usize, name_end: usize, val_start: usize, val_end: usize },
    NeedMore,
    NoMatch,
}

/// Scan one header line at `p`, reporting where its name and value lie.
fn scan_header_line_exec(s: &[u8], p: usize) -> (r: LineStep)
    requires
        p <= s@.len(),
    ensures
        match r {
            LineStep::Line { end, name_start, name_end, val_start, val_end } => {
                &&& scan_header_line(s@, p as int) == (LineScan::Line {
                    end: end as int,
                    name: s@.subrange(name_start as int, name_end as int),
                    value: s@.subrange(val_start as int, val_end as int),
                })
                &&& p < end <= s@.len()
                &&& name_start == p
                &&& name_start <= name_end <= s@.len()
                &&& val_start <= val_end <= s@.len()
            },
            LineStep::NeedMore => scan_header_line(s@, p as int) is More,
            LineStep::NoMatch => scan_header_line(s@, p as int) is Mismatch,
        },
{
    let ne = match scan_class(s, p, ByteClass::HeaderKeyByte) {
        None => { return LineStep::NeedMore; },
        Some(e) => e,
    };
    if ne == p {
        return LineStep::NoMatch;
    }
    let c0 = match scan_class(s, ne, ByteClass::SpaceByte) {
        None => { return LineStep::NeedMore; },
        Some(e) => e,
    };
    let c1 = match scan_byte(s, c0, COLON) {
        TagStep::NeedMore => { return LineStep::NeedMore; },
        TagStep::NoMatch => { return LineStep::NoMatch; },
        TagStep::Hit(e) => e,
    };
    let vs = match scan_class(s, c1, ByteClass::SpaceByte) {
        None => { return LineStep::NeedMore; },
        Some(e) => e,
    };
    let ve = match scan_class(s, vs, ByteClass::HeaderValueByte) {
        None => { return LineStep::NeedMore; },
        Some(e) => e,
    };
    match scan_crlf(s, ve) {
        TagStep::NeedMore => LineStep::NeedMore,
        TagStep::NoMatch => LineStep::NoMatch,
        TagStep::Hit(e) => LineStep::Line {
            end: e,
            name_start: p,
            name_end: ne,
            val_start: vs,
            val_end: ve,
        },
    }
}

/// What one parse pass yields, as handed to callers.
pub enum ParseOutcome {
    /// The bytes are a proper prefix of a head: read more, retry over all of
    /// them.
    Incomplete,
    /// The bytes can never open a head: a permanent error.
    Malformed,
    /// A complete head with no key header in it: a permanent error.
    MissingKey,
    /// A complete head: `consumed` bytes belong to it, and `key` is the
    /// value of its first `Sec-WebSocket-Key` header.
    Complete { consumed: usize, key: Vec<u8> },
}

impl View for ParseOutcome {
    type V = KeyQuery;

    open spec fn view(&self) -> KeyQuery {
        match self {
            ParseOutcome::Incomplete => KeyQuery::Incomplete,
            ParseOutcome::Malformed => KeyQuery::Malformed,
            ParseOutcome::MissingKey => KeyQuery::MissingKey,
            ParseOutcome::Complete { consumed, key } => KeyQuery::Found {
                consumed: *consumed as int,
                key: key@,
            },
        }
    }
}

/// The view of an optional key in hand.
spec fn opt_bytes_view(k: Option<Vec<u8>>) -> Option<Seq<u8>> {
    match k {
        Option::None => Option::None,
        Option::Some(v) => Option::Some(v@),
    }
}

/// An incremental parser of request heads.
pub trait HttpParser {
    /// One full parse pass over everything accumulated so far.
    fn parse_websocket_key(input: &[u8]) -> (r: ParseOutcome)
        ensures
            r@ == key_extraction(input@),
    ;
}

/// The one parser of this crate: a single-pass scanner over the buffer.
pub struct HttpStreamParser;

impl HttpParser for HttpStreamParser {
    fn parse_websocket_key(input: &[u8]) -> (r: ParseOutcome) {
        // Start line.
        let m = match scan_class(input, 0, ByteClass::WordByte) {
            None => { return ParseOutcome::Incomplete; },
            Some(e) => e,
        };
        if m == 0 {
            return ParseOutcome::Malformed;
        }
        let a = match scan_class(input, m, ByteClass::SpaceByte) {
            None => { return ParseOutcome::Incomplete; },
            Some(e) => e,
        };
        if a == m {
            return ParseOutcome::Malformed;
        }
        let t = match scan_class(input, a, ByteClass::WordByte) {
            None => { return ParseOutcome::Incomplete; },
            Some(e) => e,
        };
        if t == a {
            return ParseOutcome::Malformed;
        }
        let b = match scan_class(input, t, ByteClass::SpaceByte) {
            None => { return ParseOutcome::Incomplete; },
            Some(e) => e,
        };
        if b == t {
            return ParseOutcome::Malformed;
        }
        let h = match scan_http_slash(input, b) {
            TagStep::NeedMore => { return ParseOutcome::Incomplete; },
            TagStep::NoMatch => { return ParseOutcome::Malformed; },
            TagStep::Hit(e) => e,
        };
        let d1 = match scan_class(input, h, ByteClass::DigitByte) {
            None => { return ParseOutcome::Incomplete; },
            Some(e) => e,
        };
        if d1 == h {
            return ParseOutcome::Malformed;
        }
        let q = match scan_byte(input, d1, DOT) {
            TagStep::NeedMore => { return ParseOutcome::Incomplete; },
            TagStep::NoMatch => { return ParseOutcome::Malformed; },
            TagStep::Hit(e) => e,
        };
        let d2 = match scan_class(input, q, ByteClass::DigitByte) {
            None => { return ParseOutcome::Incomplete; },
            Some(e) => e,
        };
        if d2 == q {
            return ParseOutcome::Malformed;
        }
        let e0 = match scan_crlf(input, d2) {
            TagStep::NeedMore => { return ParseOutcome::Incomplete; },
            TagStep::NoMatch => { return ParseOutcome::Malformed; },
            TagStep::Hit(e) => e,
        };
        // Header lines, until the blank line.
        let mut pos: usize = e0;
        let mut key: Option<Vec<u8>> = None;
        loop
            invariant
                pos <= input@.len(),
                scan_start_line(input@, 0) == Scan::Found(e0 as int),
                scan_headers(input@, e0 as int, Option::None) == scan_headers(
                    input@,
                    pos as int,
                    opt_bytes_view(key),
                ),
            decreases input@.len() - pos,
        {
            match scan_header_line_exec(input, pos) {
                LineStep::NeedMore => { return ParseOutcome::Incomplete; },
                LineStep::Line { end, name_start, name_end, val_start, val_end } => {
                    if key.is_none() && name_is_key(input, name_start, name_end) {
                        key = Some(copy_range(input, val_start, val_end));
                    }
                    pos = end;
                },
                LineStep::NoMatch => {
                    match scan_crlf(input, pos) {
                        TagStep::NeedMore => { return ParseOutcome::Incomplete; },
                        TagStep::NoMatch => { return ParseOutcome::Malformed; },
                        TagStep::Hit(e) => {
                            match key {
                                Some(k) => {
                                    return ParseOutcome::Complete { consumed: e, key: k };
                                },
                                None => { return ParseOutcome::MissingKey; },
                            }
                        },
                    }
                },
            }
        }
    }
}

/// The extractor's answer for one accumulation step, ceiling applied.
pub enum ExtractOutcome {
    /// A valid prefix with no terminator yet: append new bytes and retry.
    NeedMore,
    /// A permanent error: the head can never parse, the key header is
    /// absent, or the buffer outgrew the ceiling.
    Reject(ErrorKind),
    /// A head of `consumed` bytes stands and yielded `key`.
    Ready { consumed: usize, key: Vec<u8> },
}

/// Examine everything buffered so far.  The ceiling is checked first, so a
/// buffer past it is rejected outright; under it, the answer follows one
/// full parse of the buffer.
pub fn extract_websocket_key(buffer: &[u8], ceiling: usize) -> (r: ExtractOutcome)
    ensures
        buffer@.len() > ceiling ==> r == ExtractOutcome::Reject(ErrorKind::ResourceExceeded),
        buffer@.len() <= ceiling ==> match key_extraction(buffer@) {
            KeyQuery::Incomplete => r == ExtractOutcome::NeedMore,
            KeyQuery::Malformed => r == ExtractOutcome::Reject(ErrorKind::ProtocolMalformed),
            KeyQuery::MissingKey => r == ExtractOutcome::Reject(ErrorKind::ProtocolMalformed),
            KeyQuery::Found { consumed, key } => r matches ExtractOutcome::Ready {
                consumed: c,
                key: k,
            } && c == consumed && k@ == key,
        },
{
    if buffer.len() > ceiling {
        return ExtractOutcome::Reject(ErrorKind::ResourceExceeded);
    }
    match HttpStreamParser::parse_websocket_key(buffer) {
        ParseOutcome::Incomplete => ExtractOutcome::NeedMore,
        ParseOutcome::Malformed => ExtractOutcome::Reject(ErrorKind::ProtocolMalformed),
        ParseOutcome::MissingKey => ExtractOutcome::Reject(ErrorKind::ProtocolMalformed),
        ParseOutcome::Complete { consumed, key } => ExtractOutcome::Ready { consumed, key },
    }
}

} // verus!
