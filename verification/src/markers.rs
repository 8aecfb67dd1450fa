//! Inline markers in assistant text.
//!
//! Generated text can carry two bracketed markers: a citation `[^n]`
//! naming a source by number, and a file marker
//! `[file:name.ext|type|sizeBytes]` describing a download.  Each parser
//! accepts exactly the marker grammar: the number as the standard
//! library's integer parse accepts it (digits with an optional leading
//! plus sign, within range), and the file marker as exactly three
//! `|`-separated fields with a byte size in range.

use vstd::prelude::*;
use vstd::string::StrSliceExecFns;

verus! {

/// An ASCII decimal digit.
pub open spec fn is_digit_char(c: char) -> bool {
    0x30 <= c as u32 && c as u32 <= 0x39
}

/// Every character is an ASCII decimal digit.
pub open spec fn all_digits(s: Seq<char>) -> bool {
    forall|k: int| 0 <= k < s.len() ==> is_digit_char(s[k])
}

/// The number the digits spell, most significant first.
pub open spec fn digits_value(s: Seq<char>) -> int
    decreases s.len(),
{
    if s.len() == 0 {
        0
    } else {
        digits_value(s.drop_last()) * 10 + (s.last() as u32 - 0x30)
    }
}

pub proof fn lemma_digits_value_nonneg(s: Seq<char>)
    requires
        all_digits(s),
    ensures
        digits_value(s) >= 0,
    decreases s.len(),
{
    if s.len() > 0 {
        assert(all_digits(s.drop_last()));
        lemma_digits_value_nonneg(s.drop_last());
    }
}

/// A longer digit string never spells a smaller number.
pub proof fn lemma_digits_value_grows(s: Seq<char>, i: int)
    requires
        all_digits(s),
        0 <= i <= s.len(),
    ensures
        digits_value(s.take(i)) <= digits_value(s),
    decreases s.len() - i,
{
    if i == s.len() {
        assert(s.take(i) =~= s);
    } else {
        assert(s.take(i + 1).drop_last() =~= s.take(i));
        assert(all_digits(s.take(i)));
        lemma_digits_value_nonneg(s.take(i));
        lemma_digits_value_grows(s, i + 1);
    }
}

/// What the standard library's unsigned integer parse makes of `s`: an
/// optional leading plus sign, then at least one digit, as a value.
pub open spec fn dec_value_of(s: Seq<char>) -> Option<int> {
    let body = if s.len() > 0 && s[0] == '+' {
        s.drop_first()
    } else {
        s
    };
    if body.len() > 0 && all_digits(body) {
        Some(digits_value(body))
    } else {
        None
    }
}

/// `s` parsed as a `u32`, as the standard library parses one.
pub open spec fn parsed_u32(s: Seq<char>) -> Option<u32> {
    match dec_value_of(s) {
        Some(v) => if v <= u32::MAX {
            Some(v as u32)
        } else {
            None
        },
        None => None,
    }
}

/// `s` parsed as a `u64`, as the standard library parses one.
pub open spec fn parsed_u64(s: Seq<char>) -> Option<u64> {
    match dec_value_of(s) {
        Some(v) => if v <= u64::MAX {
            Some(v as u64)
        } else {
            None
        },
        None => None,
    }
}

/// The citation a marker names: `[^n]` with `n` parsing as a `u32`.
pub open spec fn citation_of(s: Seq<char>) -> Option<u32> {
    if s.len() >= 3 && s[0] == '[' && s[1] == '^' && s.last() == ']' {
        parsed_u32(s.subrange(2, s.len() - 1))
    } else {
        None
    }
}

/// The first index at or after `i` that holds a `|`, or the length.
pub open spec fn find_pipe(s: Seq<char>, i: int) -> int
    decreases s.len() - i,
{
    if 0 <= i && i < s.len() && s[i] != '|' {
        find_pipe(s, i + 1)
    } else {
        i
    }
}

/// The download a file marker describes: `[file:name|type|sizeBytes]`,
/// exactly three `|`-separated fields, the size parsing as a `u64`.
pub open spec fn file_download_of(s: Seq<char>) -> Option<(Seq<char>, Seq<char>, u64)> {
    if s.len() >= 7 && s[0] == '[' && s[1] == 'f' && s[2] == 'i' && s[3] == 'l' && s[4] == 'e'
        && s[5] == ':' && s.last() == ']' {
        let end = s.len() - 1;
        let pipe1 = find_pipe(s, 6);
        if pipe1 < end {
            let pipe2 = find_pipe(s, pipe1 + 1);
            if pipe2 < end && find_pipe(s, pipe2 + 1) == s.len() {
                match parsed_u64(s.subrange(pipe2 + 1, end)) {
                    Some(size) => Some((s.subrange(6, pipe1), s.subrange(pipe1 + 1, pipe2), size)),
                    None => None,
                }
            } else {
                None
            }
        } else {
            None
        }
    } else {
        None
    }
}

/// Reads the digits of `s` between `from` and `to` as a number, refusing
/// anything that is not a digit and any value above `cap`.
fn parse_dec_capped(s: &str, from: usize, to: usize, cap: u128) -> (r: Option<u128>)
    requires
        from <= to <= s@.len(),
        cap <= 0xffff_ffff_ffff_ffff,
    ensures
        ({
            let body = s@.subrange(from as int, to as int);
            match r {
                Some(v) => body.len() > 0 && all_digits(body) && digits_value(body) == v && v
                    <= cap,
                None => !(body.len() > 0 && all_digits(body) && digits_value(body) <= cap),
            }
        }),
{
    let ghost body = s@.subrange(from as int, to as int);
    if from == to {
        return None;
    }
    let mut acc: u128 = 0;
    let mut i = from;
    while i < to
        invariant
            from <= i <= to <= s@.len(),
            body == s@.subrange(from as int, to as int),
            all_digits(body.take(i - from)),
            acc == digits_value(body.take(i - from)),
            acc <= cap,
            cap <= 0xffff_ffff_ffff_ffff,
        decreases to - i,
    {
        let c = s.get_char(i);
        let u = c as u32;
        if !(0x30 <= u && u <= 0x39) {
            proof {
                assert(body[i - from] == s@[i as int]);
                assert(!all_digits(body));
            }
            return None;
        }
        let d = (u - 0x30) as u128;
        proof {
            assert(body[i - from] == s@[i as int]);
            assert(body.take(i - from + 1).drop_last() =~= body.take(i - from));
            assert(body.take(i - from + 1).last() == body[i - from]);
        }
        acc = acc * 10 + d;
        let ghost done = i - from + 1;
        if acc > cap {
            proof {
                if all_digits(body) {
                    lemma_digits_value_grows(body, done as int);
                }
            }
            return None;
        }
        i = i + 1;
    }
    proof {
        assert(body.take((to - from) as int) =~= body);
    }
    Some(acc)
}

/// Parses a citation marker `[^n]`, yielding the citation number.
pub fn parse_citation(text: &str) -> (r: Option<u32>)
    ensures
        r == citation_of(text@),
{
    let n = text.unicode_len();
    if !(n >= 3 && text.get_char(0) == '[' && text.get_char(1) == '^' && text.get_char(n - 1)
        == ']') {
        return None;
    }
    let ghost inner = text@.subrange(2, n as int - 1);
    if n == 3 {
        return None;
    }
    let mut from: usize = 2;
    if text.get_char(2) == '+' {
        from = 3;
    }
    proof {
        assert(inner[0] == text@[2]);
        if text@[2] == '+' {
            assert(inner.drop_first() =~= text@.subrange(3, n as int - 1));
        } else {
            assert(inner =~= text@.subrange(2, n as int - 1));
        }
    }
    match parse_dec_capped(text, from, n - 1, 0xffff_ffff) {
        None => None,
        Some(v) => Some(v as u32),
    }
}

/// Finds the next `|` at or after `i`, up to the end of `s`.
fn scan_pipe(s: &str, i: usize) -> (r: usize)
    requires
        i <= s@.len(),
    ensures
        r as int == find_pipe(s@, i as int),
        i <= r <= s@.len(),
{
    let n = s.unicode_len();
    let mut j = i;
    while j < n && s.get_char(j) != '|'
        invariant
            i <= j <= n == s@.len(),
            find_pipe(s@, i as int) == find_pipe(s@, j as int),
        decreases n - j,
    {
        j = j + 1;
    }
    j
}

/// Parses a file marker `[file:name.ext|type|sizeBytes]`, yielding the
/// file name, the file type and the size in bytes.
pub fn parse_file_download(text: &str) -> (r: Option<(String, String, u64)>)
    ensures
        match (r, file_download_of(text@)) {
            (Some((f, t, size)), Some(sp)) => f@ == sp.0 && t@ == sp.1 && size == sp.2,
            (None, None) => true,
            _ => false,
        },
{
    let n = text.unicode_len();
    if !(n >= 7 && text.get_char(0) == '[' && text.get_char(1) == 'f' && text.get_char(2) == 'i'
        && text.get_char(3) == 'l' && text.get_char(4) == 'e' && text.get_char(5) == ':'
        && text.get_char(n - 1) == ']') {
        return None;
    }
    let pipe1 = scan_pipe(text, 6);
    if !(pipe1 < n - 1) {
        return None;
    }
    let pipe2 = scan_pipe(text, pipe1 + 1);
    if !(pipe2 < n - 1) {
        return None;
    }
    if scan_pipe(text, pipe2 + 1) != n {
        return None;
    }
    let ghost szchars = text@.subrange(pipe2 as int + 1, n as int - 1);
    let mut szfrom = pipe2 + 1;
    if szfrom < n - 1 && text.get_char(szfrom) == '+' {
        szfrom = szfrom + 1;
    }
    proof {
        if szchars.len() > 0 {
            assert(szchars[0] == text@[pipe2 as int + 1]);
        }
        if szchars.len() > 0 && szchars[0] == '+' {
            assert(szchars.drop_first() =~= text@.subrange(pipe2 as int + 2, n as int - 1));
        }
    }
    let size = match parse_dec_capped(text, szfrom, n - 1, 0xffff_ffff_ffff_ffff) {
        None => {
            return None;
        },
        Some(v) => v as u64,
    };
    let filename = text.substring_char(6, pipe1).to_owned();
    let ftype = text.substring_char(pipe1 + 1, pipe2).to_owned();
    Some((filename, ftype, size))
}

} // verus!
