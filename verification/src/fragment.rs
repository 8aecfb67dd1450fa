//! Cleaning a decoded chunk into a fragment that may hold a response
//! object.
//!
//! The upstream service streams a JSON array of objects, so a chunk can
//! carry array punctuation around (or instead of) its object.  Cleaning
//! trims white space, strips at most one leading `[` and one leading `,`,
//! then at most one trailing `]` and one trailing `,`, and trims white
//! space once more.  An empty result means the chunk held only punctuation
//! and is skipped.

use vstd::prelude::*;
use vstd::string::StrSliceExecFns;

verus! {

/// White space, with every character that `char::is_whitespace` accepts:
/// the ASCII spacing characters and the Unicode `White_Space` set.
pub open spec fn is_space_char(c: char) -> bool {
    ||| c == ' '
    ||| (0x09 <= c as u32 && c as u32 <= 0x0d)
    ||| c as u32 == 0x85
    ||| c as u32 == 0xa0
    ||| c as u32 == 0x1680
    ||| (0x2000 <= c as u32 && c as u32 <= 0x200a)
    ||| c as u32 == 0x2028
    ||| c as u32 == 0x2029
    ||| c as u32 == 0x202f
    ||| c as u32 == 0x205f
    ||| c as u32 == 0x3000
}

/// `s` without its leading white space.
pub open spec fn trim_start(s: Seq<char>) -> Seq<char>
    decreases s.len(),
{
    if s.len() > 0 && is_space_char(s[0]) {
        trim_start(s.drop_first())
    } else {
        s
    }
}

/// `s` without its trailing white space.
pub open spec fn trim_end(s: Seq<char>) -> Seq<char>
    decreases s.len(),
{
    if s.len() > 0 && is_space_char(s.last()) {
        trim_end(s.drop_last())
    } else {
        s
    }
}

/// `s` without leading and trailing white space.
pub open spec fn trim(s: Seq<char>) -> Seq<char> {
    trim_end(trim_start(s))
}

/// `s` without one leading `c`, when it starts with one.
pub open spec fn strip_first(s: Seq<char>, c: char) -> Seq<char> {
    if s.len() > 0 && s[0] == c {
        s.drop_first()
    } else {
        s
    }
}

/// `s` without one trailing `c`, when it ends with one.
pub open spec fn strip_last(s: Seq<char>, c: char) -> Seq<char> {
    if s.len() > 0 && s.last() == c {
        s.drop_last()
    } else {
        s
    }
}

/// The cleaned fragment of a decoded chunk: trimmed, with at most one
/// leading `[`, one leading `,`, one trailing `]` and one trailing `,`
/// stripped, and trimmed again.
pub open spec fn clean_fragment(s: Seq<char>) -> Seq<char> {
    trim(strip_last(strip_last(strip_first(strip_first(trim(s), '['), ','), ']'), ','))
}

/// Exec counterpart of [`is_space_char`].
pub fn is_space(c: char) -> (r: bool)
    ensures
        r == is_space_char(c),
{
    let u = c as u32;
    u == 0x20 || (0x09 <= u && u <= 0x0d) || u == 0x85 || u == 0xa0 || u == 0x1680 || (0x2000 <= u
        && u <= 0x200a) || u == 0x2028 || u == 0x2029 || u == 0x202f || u == 0x205f || u == 0x3000
}

/// Narrows the window `[lo, hi)` of `s` until white space is gone from
/// both ends, so that the window reads back `trim` of the old window.
fn trim_window(s: &str, lo: usize, hi: usize) -> (r: (usize, usize))
    requires
        lo <= hi <= s@.len(),
    ensures
        lo <= r.0 <= r.1 <= hi,
        s@.subrange(r.0 as int, r.1 as int) == trim(s@.subrange(lo as int, hi as int)),
{
    let ghost w0 = s@.subrange(lo as int, hi as int);
    let mut a = lo;
    let mut b = hi;
    while a < b && is_space(s.get_char(a))
        invariant
            lo <= a <= b == hi <= s@.len(),
            trim_start(w0) == trim_start(s@.subrange(a as int, b as int)),
            w0 == s@.subrange(lo as int, hi as int),
        decreases b - a,
    {
        proof {
            assert(s@.subrange(a as int, b as int).drop_first() =~= s@.subrange(
                a as int + 1,
                b as int,
            ));
        }
        a = a + 1;
    }
    let ghost w1 = s@.subrange(a as int, b as int);
    proof {
        assert(trim_start(w0) == w1);
    }
    while a < b && is_space(s.get_char(b - 1))
        invariant
            lo <= a <= b <= hi <= s@.len(),
            trim_end(w1) == trim_end(s@.subrange(a as int, b as int)),
            w1 == trim_start(w0),
            w0 == s@.subrange(lo as int, hi as int),
            a < b ==> !is_space_char(s@[a as int]),
        decreases b - a,
    {
        proof {
            assert(s@.subrange(a as int, b as int).drop_last() =~= s@.subrange(
                a as int,
                b as int - 1,
            ));
        }
        b = b - 1;
    }
    proof {
        assert(trim_end(w1) == s@.subrange(a as int, b as int));
    }
    (a, b)
}

/// Cleans one decoded chunk, returning the fragment that remains.
pub fn clean_fragment_str(s: &str) -> (r: String)
    ensures
        r@ == clean_fragment(s@),
{
    let n = s.unicode_len();
    proof {
        assert(s@.subrange(0, n as int) =~= s@);
    }
    let (mut lo, mut hi) = trim_window(s, 0, n);
    // At most one leading '[' and one leading ','.
    if lo < hi && s.get_char(lo) == '[' {
        proof {
            assert(s@.subrange(lo as int, hi as int).drop_first() =~= s@.subrange(
                lo as int + 1,
                hi as int,
            ));
        }
        lo = lo + 1;
    }
    let ghost w1 = s@.subrange(lo as int, hi as int);
    proof {
        assert(w1 == strip_first(trim(s@), '['));
    }
    if lo < hi && s.get_char(lo) == ',' {
        proof {
            assert(s@.subrange(lo as int, hi as int).drop_first() =~= s@.subrange(
                lo as int + 1,
                hi as int,
            ));
        }
        lo = lo + 1;
    }
    let ghost w2 = s@.subrange(lo as int, hi as int);
    proof {
        assert(w2 == strip_first(w1, ','));
    }
    // At most one trailing ']' and one trailing ','.
    if lo < hi && s.get_char(hi - 1) == ']' {
        proof {
            assert(s@.subrange(lo as int, hi as int).drop_last() =~= s@.subrange(
                lo as int,
                hi as int - 1,
            ));
        }
        hi = hi - 1;
    }
    let ghost w3 = s@.subrange(lo as int, hi as int);
    proof {
        assert(w3 == strip_last(w2, ']'));
    }
    if lo < hi && s.get_char(hi - 1) == ',' {
        proof {
            assert(s@.subrange(lo as int, hi as int).drop_last() =~= s@.subrange(
                lo as int,
                hi as int - 1,
            ));
        }
        hi = hi - 1;
    }
    let ghost w4 = s@.subrange(lo as int, hi as int);
    proof {
        assert(w4 == strip_last(w3, ','));
    }
    let (a, b) = trim_window(s, lo, hi);
    let cleaned = s.substring_char(a, b);
    cleaned.to_owned()
}

} // verus!
