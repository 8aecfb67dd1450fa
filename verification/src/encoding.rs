//! UTF-8 validation and encoding, proved against vstd's model of UTF-8.
//!
//! A network chunk arrives as raw bytes and is only processed further when
//! it is a valid UTF-8 encoding; [`utf8_valid`] decides that, verified
//! against [`vstd::utf8::valid_utf8`].  [`push_scalar`] appends the UTF-8
//! encoding of a single Unicode scalar, which the JSON layer uses when it
//! decodes escape sequences.

use vstd::prelude::*;
use vstd::utf8::*;

verus! {

/// Decides whether `bytes` form a valid UTF-8 encoding.
pub fn utf8_valid(bytes: &[u8]) -> (b: bool)
    ensures
        b == valid_utf8(bytes@),
{
    let n = bytes.len();
    let mut i: usize = 0;
    while i < n
        invariant
            0 <= i <= n == bytes@.len(),
            partial_valid_utf8(bytes@, i as int),
        decreases n - i,
    {
        let ghost suffix = bytes@.subrange(i as int, n as int);
        let b0 = bytes[i];
        let width: usize = if b0 < 0x80 {
            1
        } else if 0xc0 <= b0 && b0 <= 0xdf {
            2
        } else if 0xe0 <= b0 && b0 <= 0xef {
            3
        } else if 0xf0 <= b0 && b0 <= 0xf7 {
            4
        } else {
            // A continuation byte or an over-long leading byte cannot start
            // a scalar's encoding.
            proof {
                assert(!valid_leading_and_continuation_bytes_first_codepoint(suffix));
                assert(!valid_utf8(suffix));
                partial_valid_partial_invalid_utf8(bytes@, i as int);
            }
            return false;
        };
        if n - i < width {
            proof {
                assert(!valid_leading_and_continuation_bytes_first_codepoint(suffix));
                assert(!valid_utf8(suffix));
                partial_valid_partial_invalid_utf8(bytes@, i as int);
            }
            return false;
        }
        if width >= 2 {
            // Each following byte must be a continuation byte, and the
            // decoded codepoint must be in range for its width: neither an
            // over-long encoding nor a surrogate.
            let mut conts_ok = true;
            if !(0x80 <= bytes[i + 1] && bytes[i + 1] <= 0xbf) {
                conts_ok = false;
            }
            if width >= 3 && !(0x80 <= bytes[i + 2] && bytes[i + 2] <= 0xbf) {
                conts_ok = false;
            }
            if width >= 4 && !(0x80 <= bytes[i + 3] && bytes[i + 3] <= 0xbf) {
                conts_ok = false;
            }
            if !conts_ok {
                proof {
                    assert(!valid_leading_and_continuation_bytes_first_codepoint(suffix));
                    assert(!valid_utf8(suffix));
                    partial_valid_partial_invalid_utf8(bytes@, i as int);
                }
                return false;
            }
            let cp: u32 = if width == 2 {
                (((b0 & 0x1f) as u32) << 6) | ((bytes[i + 1] & 0x3f) as u32)
            } else if width == 3 {
                (((b0 & 0x0f) as u32) << 12) | (((bytes[i + 1] & 0x3f) as u32) << 6) | ((bytes[i
                    + 2] & 0x3f) as u32)
            } else {
                (((b0 & 0x07) as u32) << 18) | (((bytes[i + 1] & 0x3f) as u32) << 12) | (((bytes[i
                    + 2] & 0x3f) as u32) << 6) | ((bytes[i + 3] & 0x3f) as u32)
            };
            proof {
                assert(cp == decode_first_codepoint(suffix));
                assert(width == length_of_first_codepoint(suffix));
            }
            let range_ok = if width == 2 {
                0x80 <= cp
            } else if width == 3 {
                0x800 <= cp && !(0xd800 <= cp && cp <= 0xdfff)
            } else {
                0x10000 <= cp && cp <= 0x10ffff
            };
            if !range_ok {
                proof {
                    assert(!valid_first_scalar(suffix));
                    assert(!valid_utf8(suffix));
                    partial_valid_partial_invalid_utf8(bytes@, i as int);
                }
                return false;
            }
            proof {
                if width == 2 {
                    let b1 = bytes@[i + 1];
                    assert((((b0 & 0x1f) as u32) << 6) | ((b1 & 0x3f) as u32) <= 0x7ff)
                        by (bit_vector);
                }
                assert(valid_first_scalar(suffix));
                partial_valid_utf8_extend(bytes@, i as int);
            }
        } else {
            proof {
                assert(decode_first_codepoint(suffix) == leading_bits_width_1(b0));
                assert(leading_bits_width_1(b0) == b0 as u32) by (bit_vector)
                    requires
                        b0 < 0x80,
                ;
                assert(valid_first_scalar(suffix));
                partial_valid_utf8_extend(bytes@, i as int);
            }
        }
        i = i + width;
    }
    proof {
        assert(bytes@.subrange(0, n as int) =~= bytes@);
    }
    true
}

/// Relies on `String::from_utf8`: it returns `Ok` exactly when the bytes
/// are a valid UTF-8 encoding, and then the string reads back those bytes.
/// The precondition rules the `Err` case out, so the unwrap cannot panic.
#[verifier::external_body]
pub(crate) fn string_from_utf8(bytes: Vec<u8>) -> (r: String)
    requires
        valid_utf8(bytes@),
    ensures
        r@ == decode_utf8(bytes@),
{
    String::from_utf8(bytes).unwrap()
}

/// Appends the UTF-8 encoding of one Unicode scalar to `out`.
pub fn push_scalar(out: &mut Vec<u8>, scalar: u32)
    requires
        is_scalar(scalar),
    ensures
        final(out)@ == old(out)@ + encode_scalar(scalar),
{
    if scalar <= 0x7f {
        out.push((scalar & 0x7f) as u8);
        proof {
            assert(out@ =~= old(out)@ + encode_scalar(scalar));
        }
    } else if scalar <= 0x7ff {
        out.push(0xc0 | ((scalar >> 6) & 0x1f) as u8);
        out.push(0x80 | (scalar & 0x3f) as u8);
        proof {
            assert(out@ =~= old(out)@ + encode_scalar(scalar));
        }
    } else if scalar <= 0xffff {
        out.push(0xe0 | ((scalar >> 12) & 0x0f) as u8);
        out.push(0x80 | ((scalar >> 6) & 0x3f) as u8);
        out.push(0x80 | (scalar & 0x3f) as u8);
        proof {
            assert(out@ =~= old(out)@ + encode_scalar(scalar));
        }
    } else {
        out.push(0xf0 | ((scalar >> 18) & 0x07) as u8);
        out.push(0x80 | ((scalar >> 12) & 0x3f) as u8);
        out.push(0x80 | ((scalar >> 6) & 0x3f) as u8);
        out.push(0x80 | (scalar & 0x3f) as u8);
        proof {
            assert(out@ =~= old(out)@ + encode_scalar(scalar));
        }
    }
}

} // verus!
