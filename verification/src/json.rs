//! The JSON grammar, at the byte level.
//!
//! A cleaned fragment is parsed as UTF-8 encoded JSON.  The specification
//! functions here define the grammar over a byte sequence: each one reads
//! from an index and yields what it parsed together with the index just
//! past it, or nothing when the input does not conform.  The exec
//! functions mirror them and are proved to return exactly what the
//! specification says.
//!
//! String content is decoded: escape sequences, surrogate pairs included,
//! become the Unicode scalars they name, and everything else is taken as
//! the UTF-8 scalars of the input.  A decoded string is a sequence of
//! characters in the specification and its UTF-8 encoding in exec code.

use vstd::prelude::*;
use vstd::utf8::*;
use crate::encoding::push_scalar;

verus! {

/// JSON inter-token white space: space, tab, line feed, carriage return.
pub open spec fn json_ws(b: u8) -> bool {
    b == 0x20 || b == 0x09 || b == 0x0a || b == 0x0d
}

/// The first index at or after `i` that does not hold JSON white space.
pub open spec fn skip_ws(s: Seq<u8>, i: int) -> int
    decreases s.len() - i,
{
    if 0 <= i && i < s.len() && json_ws(s[i]) {
        skip_ws(s, i + 1)
    } else {
        i
    }
}

/// An ASCII decimal digit.
pub open spec fn is_digit(b: u8) -> bool {
    0x30 <= b && b <= 0x39
}

/// An ASCII hexadecimal digit.
pub open spec fn is_hex_digit(b: u8) -> bool {
    is_digit(b) || (0x41 <= b && b <= 0x46) || (0x61 <= b && b <= 0x66)
}

/// The value of an ASCII hexadecimal digit.
pub open spec fn hex_val(b: u8) -> u32
    recommends
        is_hex_digit(b),
{
    if is_digit(b) {
        (b - 0x30) as u32
    } else if 0x41 <= b && b <= 0x46 {
        (b - 0x41 + 10) as u32
    } else {
        (b - 0x61 + 10) as u32
    }
}

/// Four hexadecimal digits starting at `i`, as a value up to `0xffff`.
pub open spec fn hex4(s: Seq<u8>, i: int) -> Option<u32> {
    if 0 <= i && i + 4 <= s.len() && is_hex_digit(s[i]) && is_hex_digit(s[i + 1]) && is_hex_digit(
        s[i + 2],
    ) && is_hex_digit(s[i + 3]) {
        Some(
            (hex_val(s[i]) * 0x1000 + hex_val(s[i + 1]) * 0x100 + hex_val(s[i + 2]) * 0x10
                + hex_val(s[i + 3])) as u32,
        )
    } else {
        None
    }
}

/// One UTF-8 encoded scalar starting at `i`: its value and the index just
/// past its encoding.  Continuation structure, over-long encodings and
/// surrogates are all rejected, as in UTF-8 itself.
pub open spec fn take_scalar(s: Seq<u8>, i: int) -> Option<(u32, int)> {
    if !(0 <= i && i < s.len()) {
        None
    } else {
        let b0 = s[i];
        if b0 < 0x80 {
            Some((b0 as u32, i + 1))
        } else if 0xc0 <= b0 && b0 <= 0xdf {
            if i + 2 <= s.len() && is_continuation_byte(s[i + 1]) {
                let cp = codepoint_width_2(b0, s[i + 1]);
                if 0x80 <= cp {
                    Some((cp, i + 2))
                } else {
                    None
                }
            } else {
                None
            }
        } else if 0xe0 <= b0 && b0 <= 0xef {
            if i + 3 <= s.len() && is_continuation_byte(s[i + 1]) && is_continuation_byte(
                s[i + 2],
            ) {
                let cp = codepoint_width_3(b0, s[i + 1], s[i + 2]);
                if 0x800 <= cp && !(0xd800 <= cp && cp <= 0xdfff) {
                    Some((cp, i + 3))
                } else {
                    None
                }
            } else {
                None
            }
        } else if 0xf0 <= b0 && b0 <= 0xf7 {
            if i + 4 <= s.len() && is_continuation_byte(s[i + 1]) && is_continuation_byte(s[i + 2])
                && is_continuation_byte(s[i + 3]) {
                let cp = codepoint_width_4(b0, s[i + 1], s[i + 2], s[i + 3]);
                if 0x10000 <= cp && cp <= 0x10ffff {
                    Some((cp, i + 4))
                } else {
                    None
                }
            } else {
                None
            }
        } else {
            None
        }
    }
}

/// One escape sequence starting at the backslash at `i`: the scalar it
/// names and the index just past it.  A `\u` escape naming a high
/// surrogate must be followed by one naming a low surrogate; the pair
/// yields the supplementary scalar it encodes.
pub open spec fn parse_escape(s: Seq<u8>, i: int) -> Option<(u32, int)> {
    if !(0 <= i && i + 2 <= s.len()) {
        None
    } else {
        let e = s[i + 1];
        if e == 0x22 {
            Some((0x22, i + 2))
        } else if e == 0x5c {
            Some((0x5c, i + 2))
        } else if e == 0x2f {
            Some((0x2f, i + 2))
        } else if e == 0x62 {
            Some((0x08, i + 2))
        } else if e == 0x66 {
            Some((0x0c, i + 2))
        } else if e == 0x6e {
            Some((0x0a, i + 2))
        } else if e == 0x72 {
            Some((0x0d, i + 2))
        } else if e == 0x74 {
            Some((0x09, i + 2))
        } else if e == 0x75 {
            match hex4(s, i + 2) {
                None => None,
                Some(h) => if 0xd800 <= h && h <= 0xdbff {
                    if i + 12 <= s.len() && s[i + 6] == 0x5c && s[i + 7] == 0x75 {
                        match hex4(s, i + 8) {
                            None => None,
                            Some(l) => if 0xdc00 <= l && l <= 0xdfff {
                                Some(
                                    (
                                        (0x10000 + (h - 0xd800) * 0x400 + (l - 0xdc00)) as u32,
                                        i + 12,
                                    ),
                                )
                            } else {
                                None
                            },
                        }
                    } else {
                        None
                    }
                } else if 0xdc00 <= h && h <= 0xdfff {
                    None
                } else {
                    Some((h, i + 6))
                },
            }
        } else {
            None
        }
    }
}

/// The body of a JSON string, read from `i` (just past the opening
/// quote): the decoded characters and the index just past the closing
/// quote.
pub open spec fn parse_string_body(s: Seq<u8>, i: int) -> Option<(Seq<char>, int)>
    decreases s.len() - i,
{
    if !(0 <= i && i < s.len()) {
        None
    } else {
        let b = s[i];
        if b == 0x22 {
            Some((Seq::empty(), i + 1))
        } else {
            let step = if b == 0x5c {
                parse_escape(s, i)
            } else if b >= 0x20 {
                take_scalar(s, i)
            } else {
                None
            };
            match step {
                None => None,
                Some((cp, j)) => if i < j <= s.len() {
                    match parse_string_body(s, j) {
                        None => None,
                        Some((rest, k)) => Some((seq![cp as char] + rest, k)),
                    }
                } else {
                    None
                },
            }
        }
    }
}

/// The first index at or after `i` that does not hold an ASCII digit.
pub open spec fn skip_digits(s: Seq<u8>, i: int) -> int
    decreases s.len() - i,
{
    if 0 <= i && i < s.len() && is_digit(s[i]) {
        skip_digits(s, i + 1)
    } else {
        i
    }
}

pub proof fn lemma_skip_digits_bounds(s: Seq<u8>, i: int)
    requires
        0 <= i <= s.len(),
    ensures
        i <= skip_digits(s, i) <= s.len(),
    decreases s.len() - i,
{
    if i < s.len() && is_digit(s[i]) {
        lemma_skip_digits_bounds(s, i + 1);
    }
}

/// The extent of a JSON number starting at `i`: an optional minus sign,
/// an integer part without a superfluous leading zero, an optional
/// fraction, an optional exponent.  `-1` marks a malformed tail inside.
pub open spec fn skip_number(s: Seq<u8>, i: int) -> Option<int> {
    if !(0 <= i && i < s.len()) {
        None
    } else {
        let j = if s[i] == 0x2d {
            i + 1
        } else {
            i
        };
        if !(j < s.len() && is_digit(s[j])) {
            None
        } else {
            let k = if s[j] == 0x30 {
                j + 1
            } else {
                skip_digits(s, j)
            };
            let m = if k < s.len() && s[k] == 0x2e {
                if k + 1 < s.len() && is_digit(s[k + 1]) {
                    skip_digits(s, k + 1)
                } else {
                    -1
                }
            } else {
                k
            };
            if m < 0 {
                None
            } else {
                let e = if m < s.len() && (s[m] == 0x65 || s[m] == 0x45) {
                    let p = if m + 1 < s.len() && (s[m + 1] == 0x2b || s[m + 1] == 0x2d) {
                        m + 2
                    } else {
                        m + 1
                    };
                    if p < s.len() && is_digit(s[p]) {
                        skip_digits(s, p)
                    } else {
                        -1
                    }
                } else {
                    m
                };
                if e < 0 {
                    None
                } else {
                    Some(e)
                }
            }
        }
    }
}

/// The extent of one JSON value starting at `i`: a string, an object, an
/// array, one of the three literal words, or a number.
pub open spec fn skip_value(s: Seq<u8>, i: int) -> Option<int>
    decreases s.len() - i, 3int,
{
    if !(0 <= i && i < s.len()) {
        None
    } else {
        let b = s[i];
        if b == 0x22 {
            match parse_string_body(s, i + 1) {
                None => None,
                Some((_cs, j)) => Some(j),
            }
        } else if b == 0x7b {
            skip_object(s, i)
        } else if b == 0x5b {
            skip_array(s, i)
        } else if b == 0x74 {
            if i + 4 <= s.len() && s[i + 1] == 0x72 && s[i + 2] == 0x75 && s[i + 3] == 0x65 {
                Some(i + 4)
            } else {
                None
            }
        } else if b == 0x66 {
            if i + 5 <= s.len() && s[i + 1] == 0x61 && s[i + 2] == 0x6c && s[i + 3] == 0x73 && s[i
                + 4] == 0x65 {
                Some(i + 5)
            } else {
                None
            }
        } else if b == 0x6e {
            if i + 4 <= s.len() && s[i + 1] == 0x75 && s[i + 2] == 0x6c && s[i + 3] == 0x6c {
                Some(i + 4)
            } else {
                None
            }
        } else if b == 0x2d || is_digit(b) {
            skip_number(s, i)
        } else {
            None
        }
    }
}

/// The extent of a JSON object starting at the `{` at `i`.
pub open spec fn skip_object(s: Seq<u8>, i: int) -> Option<int>
    decreases s.len() - i, 2int,
{
    if !(0 <= i && i < s.len() && s[i] == 0x7b) {
        None
    } else {
        let j = skip_ws(s, i + 1);
        if j < s.len() && s[j] == 0x7d {
            Some(j + 1)
        } else if i < j && j < s.len() {
            skip_members(s, j)
        } else {
            None
        }
    }
}

/// The extent of an object's members, read from the first key's quote at
/// `i` up to just past the closing `}`.
pub open spec fn skip_members(s: Seq<u8>, i: int) -> Option<int>
    decreases s.len() - i, 1int,
{
    if !(0 <= i && i < s.len() && s[i] == 0x22) {
        None
    } else {
        match parse_string_body(s, i + 1) {
            None => None,
            Some((_key, j)) => {
                let c = skip_ws(s, j);
                if !(c < s.len() && s[c] == 0x3a) {
                    None
                } else {
                    let v = skip_ws(s, c + 1);
                    if !(i < v && v <= s.len()) {
                        None
                    } else {
                        match skip_value(s, v) {
                            None => None,
                            Some(e) => {
                                let t = skip_ws(s, e);
                                if t < s.len() && s[t] == 0x7d {
                                    Some(t + 1)
                                } else if t < s.len() && s[t] == 0x2c {
                                    let k = skip_ws(s, t + 1);
                                    if i < k && k < s.len() {
                                        skip_members(s, k)
                                    } else {
                                        None
                                    }
                                } else {
                                    None
                                }
                            },
                        }
                    }
                }
            },
        }
    }
}

/// The extent of a JSON array starting at the `[` at `i`.
pub open spec fn skip_array(s: Seq<u8>, i: int) -> Option<int>
    decreases s.len() - i, 2int,
{
    if !(0 <= i && i < s.len() && s[i] == 0x5b) {
        None
    } else {
        let j = skip_ws(s, i + 1);
        if j < s.len() && s[j] == 0x5d {
            Some(j + 1)
        } else if i < j && j < s.len() {
            skip_elements(s, j)
        } else {
            None
        }
    }
}

/// The extent of an array's elements, read from the first element at `i`
/// up to just past the closing `]`.
pub open spec fn skip_elements(s: Seq<u8>, i: int) -> Option<int>
    decreases s.len() - i, 4int,
{
    if !(0 <= i && i < s.len()) {
        None
    } else {
        match skip_value(s, i) {
            None => None,
            Some(e) => {
                let t = skip_ws(s, e);
                if t < s.len() && s[t] == 0x5d {
                    Some(t + 1)
                } else if t < s.len() && s[t] == 0x2c {
                    let k = skip_ws(s, t + 1);
                    if i < k && k < s.len() {
                        skip_elements(s, k)
                    } else {
                        None
                    }
                } else {
                    None
                }
            },
        }
    }
}

/// Splitting a character sequence at its head splits its encoding.
pub proof fn lemma_encode_cons(c: char, rest: Seq<char>)
    ensures
        encode_utf8(seq![c] + rest) == encode_scalar(c as u32) + encode_utf8(rest),
{
    assert((seq![c] + rest)[0] == c);
    assert((seq![c] + rest).drop_first() =~= rest);
}

/// Every scalar a string body decodes to is a Unicode scalar, so casting
/// it to `char` and back is the identity.
pub proof fn lemma_take_scalar_is_scalar(s: Seq<u8>, i: int)
    requires
        take_scalar(s, i) is Some,
    ensures
        is_scalar((take_scalar(s, i)->Some_0).0),
{
    let b0 = s[i];
    let (cp, _j) = take_scalar(s, i)->Some_0;
    if b0 < 0x80 {
    } else if 0xc0 <= b0 && b0 <= 0xdf {
        let b1 = s[i + 1];
        assert(codepoint_width_2(b0, b1) <= 0x7ff) by (bit_vector);
    } else if 0xe0 <= b0 && b0 <= 0xef {
        let b1 = s[i + 1];
        let b2 = s[i + 2];
        assert(codepoint_width_3(b0, b1, b2) <= 0xffff) by (bit_vector);
    } else {
    }
}

/// The value of one hexadecimal digit, when `b` is one.
fn hex_digit(b: u8) -> (r: Option<u32>)
    ensures
        r == if is_hex_digit(b) {
            Some(hex_val(b))
        } else {
            None::<u32>
        },
{
    if 0x30 <= b && b <= 0x39 {
        Some((b - 0x30) as u32)
    } else if 0x41 <= b && b <= 0x46 {
        Some((b - 0x41 + 10) as u32)
    } else if 0x61 <= b && b <= 0x66 {
        Some((b - 0x61 + 10) as u32)
    } else {
        None
    }
}

/// Reads four hexadecimal digits starting at `i`.
fn read_hex4(s: &[u8], i: usize) -> (r: Option<u32>)
    requires
        i <= s@.len(),
    ensures
        r == hex4(s@, i as int),
{
    if s.len() - i < 4 {
        return None;
    }
    let d0 = hex_digit(s[i]);
    let d1 = hex_digit(s[i + 1]);
    let d2 = hex_digit(s[i + 2]);
    let d3 = hex_digit(s[i + 3]);
    match (d0, d1, d2, d3) {
        (Some(h0), Some(h1), Some(h2), Some(h3)) => Some(
            h0 * 0x1000 + h1 * 0x100 + h2 * 0x10 + h3,
        ),
        _ => None,
    }
}

/// Reads one UTF-8 encoded scalar starting at `i`.
fn scan_scalar(s: &[u8], i: usize) -> (r: Option<(u32, usize)>)
    requires
        i <= s@.len(),
    ensures
        match (r, take_scalar(s@, i as int)) {
            (Some((cp, j)), Some(sp)) => cp == sp.0 && j as int == sp.1 && i < j <= s@.len()
                && is_scalar(cp),
            (None, None) => true,
            _ => false,
        },
{
    if i >= s.len() {
        return None;
    }
    let b0 = s[i];
    let r: Option<(u32, usize)> = if b0 < 0x80 {
        Some((b0 as u32, i + 1))
    } else if 0xc0 <= b0 && b0 <= 0xdf {
        if s.len() - i >= 2 && 0x80 <= s[i + 1] && s[i + 1] <= 0xbf {
            let cp = (((b0 & 0x1f) as u32) << 6) | ((s[i + 1] & 0x3f) as u32);
            if 0x80 <= cp {
                Some((cp, i + 2))
            } else {
                None
            }
        } else {
            None
        }
    } else if 0xe0 <= b0 && b0 <= 0xef {
        if s.len() - i >= 3 && 0x80 <= s[i + 1] && s[i + 1] <= 0xbf && 0x80 <= s[i + 2] && s[i + 2]
            <= 0xbf {
            let cp = (((b0 & 0x0f) as u32) << 12) | (((s[i + 1] & 0x3f) as u32) << 6) | ((s[i + 2]
                & 0x3f) as u32);
            if 0x800 <= cp && !(0xd800 <= cp && cp <= 0xdfff) {
                Some((cp, i + 3))
            } else {
                None
            }
        } else {
            None
        }
    } else if 0xf0 <= b0 && b0 <= 0xf7 {
        if s.len() - i >= 4 && 0x80 <= s[i + 1] && s[i + 1] <= 0xbf && 0x80 <= s[i + 2] && s[i + 2]
            <= 0xbf && 0x80 <= s[i + 3] && s[i + 3] <= 0xbf {
            let cp = (((b0 & 0x07) as u32) << 18) | (((s[i + 1] & 0x3f) as u32) << 12) | (((s[i + 2]
                & 0x3f) as u32) << 6) | ((s[i + 3] & 0x3f) as u32);
            if 0x10000 <= cp && cp <= 0x10ffff {
                Some((cp, i + 4))
            } else {
                None
            }
        } else {
            None
        }
    } else {
        None
    };
    proof {
        if take_scalar(s@, i as int) is Some {
            lemma_take_scalar_is_scalar(s@, i as int);
        }
    }
    r
}

/// Reads one escape sequence starting at the backslash at `i`.
fn scan_escape(s: &[u8], i: usize) -> (r: Option<(u32, usize)>)
    requires
        i <= s@.len(),
    ensures
        match (r, parse_escape(s@, i as int)) {
            (Some((cp, j)), Some(sp)) => cp == sp.0 && j as int == sp.1 && i < j <= s@.len()
                && is_scalar(cp),
            (None, None) => true,
            _ => false,
        },
{
    if s.len() - i < 2 {
        return None;
    }
    let e = s[i + 1];
    if e == 0x22 {
        Some((0x22, i + 2))
    } else if e == 0x5c {
        Some((0x5c, i + 2))
    } else if e == 0x2f {
        Some((0x2f, i + 2))
    } else if e == 0x62 {
        Some((0x08, i + 2))
    } else if e == 0x66 {
        Some((0x0c, i + 2))
    } else if e == 0x6e {
        Some((0x0a, i + 2))
    } else if e == 0x72 {
        Some((0x0d, i + 2))
    } else if e == 0x74 {
        Some((0x09, i + 2))
    } else if e == 0x75 {
        match read_hex4(s, i + 2) {
            None => None,
            Some(h) => {
                if 0xd800 <= h && h <= 0xdbff {
                    if s.len() - i >= 12 && s[i + 6] == 0x5c && s[i + 7] == 0x75 {
                        match read_hex4(s, i + 8) {
                            None => None,
                            Some(l) => {
                                if 0xdc00 <= l && l <= 0xdfff {
                                    Some((0x10000 + (h - 0xd800) * 0x400 + (l - 0xdc00), i + 12))
                                } else {
                                    None
                                }
                            },
                        }
                    } else {
                        None
                    }
                } else if 0xdc00 <= h && h <= 0xdfff {
                    None
                } else {
                    Some((h, i + 6))
                }
            },
        }
    } else {
        None
    }
}

/// Reads a string body from `i` (just past the opening quote), appending
/// the decoded content, as UTF-8, to `out`; returns the index just past
/// the closing quote.
pub fn scan_string(s: &[u8], i: usize, out: &mut Vec<u8>) -> (r: Option<usize>)
    requires
        i <= s@.len(),
    ensures
        match (r, parse_string_body(s@, i as int)) {
            (Some(j), Some(sp)) => j as int == sp.1 && final(out)@ == old(out)@ + encode_utf8(
                sp.0,
            ) && i < j <= s@.len(),
            (None, None) => true,
            _ => false,
        },
    decreases s@.len() - i,
{
    if i >= s.len() {
        return None;
    }
    let b = s[i];
    if b == 0x22 {
        proof {
            assert(out@ =~= old(out)@ + encode_utf8(Seq::<char>::empty()));
        }
        return Some(i + 1);
    }
    let step: Option<(u32, usize)> = if b == 0x5c {
        scan_escape(s, i)
    } else if b >= 0x20 {
        scan_scalar(s, i)
    } else {
        None
    };
    match step {
        None => None,
        Some((cp, j)) => {
            push_scalar(out, cp);
            let ghost mid = out@;
            let r2 = scan_string(s, j, out);
            match r2 {
                None => None,
                Some(k) => {
                    proof {
                        let sp = parse_string_body(s@, i as int)->Some_0;
                        let rest = parse_string_body(s@, j as int)->Some_0.0;
                        lemma_encode_cons(cp as char, rest);
                        assert((cp as char) as u32 == cp);
                        assert(out@ =~= old(out)@ + encode_utf8(seq![cp as char] + rest));
                    }
                    Some(k)
                },
            }
        },
    }
}

/// Exec counterpart of [`skip_ws`].
pub fn scan_ws(s: &[u8], i: usize) -> (r: usize)
    requires
        i <= s@.len(),
    ensures
        r as int == skip_ws(s@, i as int),
        i <= r <= s@.len(),
{
    let mut j = i;
    while j < s.len() && (s[j] == 0x20 || s[j] == 0x09 || s[j] == 0x0a || s[j] == 0x0d)
        invariant
            i <= j <= s@.len(),
            skip_ws(s@, i as int) == skip_ws(s@, j as int),
        decreases s@.len() - j,
    {
        j = j + 1;
    }
    j
}

/// Exec counterpart of [`skip_digits`].
fn scan_digits(s: &[u8], i: usize) -> (r: usize)
    requires
        i <= s@.len(),
    ensures
        r as int == skip_digits(s@, i as int),
        i <= r <= s@.len(),
{
    let mut j = i;
    while j < s.len() && 0x30 <= s[j] && s[j] <= 0x39
        invariant
            i <= j <= s@.len(),
            skip_digits(s@, i as int) == skip_digits(s@, j as int),
        decreases s@.len() - j,
    {
        j = j + 1;
    }
    j
}

/// Exec counterpart of [`skip_number`].
fn scan_number(s: &[u8], i: usize) -> (r: Option<usize>)
    requires
        i <= s@.len(),
    ensures
        match (r, skip_number(s@, i as int)) {
            (Some(j), Some(k)) => j as int == k && i < j <= s@.len(),
            (None, None) => true,
            _ => false,
        },
{
    if i >= s.len() {
        return None;
    }
    let j = if s[i] == 0x2d {
        i + 1
    } else {
        i
    };
    if !(j < s.len() && 0x30 <= s[j] && s[j] <= 0x39) {
        return None;
    }
    let k: usize;
    if s[j] == 0x30 {
        k = j + 1;
    } else {
        proof {
            assert(skip_digits(s@, j as int) == skip_digits(s@, j as int + 1));
            lemma_skip_digits_bounds(s@, j as int + 1);
        }
        k = scan_digits(s, j);
    }
    let m = if k < s.len() && s[k] == 0x2e {
        if k + 1 < s.len() && 0x30 <= s[k + 1] && s[k + 1] <= 0x39 {
            scan_digits(s, k + 1)
        } else {
            return None;
        }
    } else {
        k
    };
    let e = if m < s.len() && (s[m] == 0x65 || s[m] == 0x45) {
        let p = if m + 1 < s.len() && (s[m + 1] == 0x2b || s[m + 1] == 0x2d) {
            m + 2
        } else {
            m + 1
        };
        if p < s.len() && 0x30 <= s[p] && s[p] <= 0x39 {
            scan_digits(s, p)
        } else {
            return None;
        }
    } else {
        m
    };
    Some(e)
}

/// Exec counterpart of [`skip_value`].
pub fn scan_value(s: &[u8], i: usize) -> (r: Option<usize>)
    requires
        i <= s@.len(),
    ensures
        match (r, skip_value(s@, i as int)) {
            (Some(j), Some(k)) => j as int == k && i < j <= s@.len(),
            (None, None) => true,
            _ => false,
        },
    decreases s@.len() - i, 3int,
{
    if i >= s.len() {
        return None;
    }
    let b = s[i];
    if b == 0x22 {
        let mut sink: Vec<u8> = Vec::new();
        let r = scan_string(s, i + 1, &mut sink);
        r
    } else if b == 0x7b {
        scan_object(s, i)
    } else if b == 0x5b {
        scan_array(s, i)
    } else if b == 0x74 {
        if s.len() - i >= 4 && s[i + 1] == 0x72 && s[i + 2] == 0x75 && s[i + 3] == 0x65 {
            Some(i + 4)
        } else {
            None
        }
    } else if b == 0x66 {
        if s.len() - i >= 5 && s[i + 1] == 0x61 && s[i + 2] == 0x6c && s[i + 3] == 0x73 && s[i + 4]
            == 0x65 {
            Some(i + 5)
        } else {
            None
        }
    } else if b == 0x6e {
        if s.len() - i >= 4 && s[i + 1] == 0x75 && s[i + 2] == 0x6c && s[i + 3] == 0x6c {
            Some(i + 4)
        } else {
            None
        }
    } else if b == 0x2d || (0x30 <= b && b <= 0x39) {
        scan_number(s, i)
    } else {
        None
    }
}

/// Exec counterpart of [`skip_object`].
fn scan_object(s: &[u8], i: usize) -> (r: Option<usize>)
    requires
        i <= s@.len(),
    ensures
        match (r, skip_object(s@, i as int)) {
            (Some(j), Some(k)) => j as int == k && i < j <= s@.len(),
            (None, None) => true,
            _ => false,
        },
    decreases s@.len() - i, 2int,
{
    if !(i < s.len() && s[i] == 0x7b) {
        return None;
    }
    let j = scan_ws(s, i + 1);
    if j < s.len() && s[j] == 0x7d {
        Some(j + 1)
    } else if j < s.len() {
        scan_members(s, j)
    } else {
        None
    }
}

/// Exec counterpart of [`skip_members`].
fn scan_members(s: &[u8], i: usize) -> (r: Option<usize>)
    requires
        i <= s@.len(),
    ensures
        match (r, skip_members(s@, i as int)) {
            (Some(j), Some(k)) => j as int == k && i < j <= s@.len(),
            (None, None) => true,
            _ => false,
        },
    decreases s@.len() - i, 1int,
{
    if !(i < s.len() && s[i] == 0x22) {
        return None;
    }
    let mut sink: Vec<u8> = Vec::new();
    let j = match scan_string(s, i + 1, &mut sink) {
        None => {
            return None;
        },
        Some(j) => j,
    };
    let c = scan_ws(s, j);
    if !(c < s.len() && s[c] == 0x3a) {
        return None;
    }
    let v = scan_ws(s, c + 1);
    let e = match scan_value(s, v) {
        None => {
            return None;
        },
        Some(e) => e,
    };
    let t = scan_ws(s, e);
    if t < s.len() && s[t] == 0x7d {
        Some(t + 1)
    } else if t < s.len() && s[t] == 0x2c {
        let k = scan_ws(s, t + 1);
        if k < s.len() {
            scan_members(s, k)
        } else {
            None
        }
    } else {
        None
    }
}

/// Exec counterpart of [`skip_array`].
fn scan_array(s: &[u8], i: usize) -> (r: Option<usize>)
    requires
        i <= s@.len(),
    ensures
        match (r, skip_array(s@, i as int)) {
            (Some(j), Some(k)) => j as int == k && i < j <= s@.len(),
            (None, None) => true,
            _ => false,
        },
    decreases s@.len() - i, 2int,
{
    if !(i < s.len() && s[i] == 0x5b) {
        return None;
    }
    let j = scan_ws(s, i + 1);
    if j < s.len() && s[j] == 0x5d {
        Some(j + 1)
    } else if j < s.len() {
        scan_elements(s, j)
    } else {
        None
    }
}

/// Exec counterpart of [`skip_elements`].
fn scan_elements(s: &[u8], i: usize) -> (r: Option<usize>)
    requires
        i <= s@.len(),
    ensures
        match (r, skip_elements(s@, i as int)) {
            (Some(j), Some(k)) => j as int == k && i < j <= s@.len(),
            (None, None) => true,
            _ => false,
        },
    decreases s@.len() - i, 4int,
{
    if i >= s.len() {
        return None;
    }
    let e = match scan_value(s, i) {
        None => {
            return None;
        },
        Some(e) => e,
    };
    let t = scan_ws(s, e);
    if t < s.len() && s[t] == 0x5d {
        Some(t + 1)
    } else if t < s.len() && s[t] == 0x2c {
        let k = scan_ws(s, t + 1);
        if k < s.len() {
            scan_elements(s, k)
        } else {
            None
        }
    } else {
        None
    }
}

} // verus!
