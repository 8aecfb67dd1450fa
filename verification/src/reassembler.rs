//! Reassembling a chunk stream into the concatenated response text.
//!
//! Each network chunk is handled on its own: decoded as UTF-8, cleaned of
//! array punctuation, parsed as one response object, and its text
//! appended to the output.  A chunk that fails any of those steps
//! contributes nothing and the stream goes on: per-chunk problems are
//! absorbed, never surfaced.
//!
//! A chunk is assumed — not guaranteed — to carry exactly one complete
//! response object after the array syntax is stripped.  An object split
//! across two chunks parses in neither half, so both halves are dropped;
//! buffering across chunk boundaries is deliberately not attempted.

use vstd::prelude::*;
use vstd::slice::slice_to_vec;
use vstd::string::StrSliceExecFns;
use vstd::utf8::{valid_utf8, decode_utf8, encode_utf8};
use crate::encoding::{utf8_valid, string_from_utf8};
use crate::fragment::{clean_fragment, clean_fragment_str};
use crate::response::{parse_response, parse_response_bytes, response_text};

verus! {

/// The text one chunk contributes to the output: nothing when the chunk
/// is not UTF-8, cleans to nothing, or does not parse as a response
/// object; otherwise everything its `text` fields hold, in order.
pub open spec fn chunk_text(chunk: Seq<u8>) -> Seq<char> {
    if !valid_utf8(chunk) {
        Seq::empty()
    } else {
        let cleaned = clean_fragment(decode_utf8(chunk));
        if cleaned.len() == 0 {
            Seq::empty()
        } else {
            match parse_response(encode_utf8(cleaned)) {
                None => Seq::empty(),
                Some(r) => response_text(r),
            }
        }
    }
}

/// The text a whole chunk stream yields: each chunk's contribution, in
/// arrival order.
pub open spec fn stream_text(chunks: Seq<Seq<u8>>) -> Seq<char>
    decreases chunks.len(),
{
    if chunks.len() == 0 {
        Seq::empty()
    } else {
        stream_text(chunks.drop_last()) + chunk_text(chunks.last())
    }
}

/// The byte sequences of a vector of chunks, in order.
pub open spec fn chunks_view(chunks: Seq<Vec<u8>>) -> Seq<Seq<u8>> {
    Seq::new(chunks.len(), |k: int| chunks[k]@)
}

/// A chunk that is not valid UTF-8 contributes nothing, whatever it
/// holds: decoding failures are absorbed, and the chunks around it are
/// unaffected.
pub proof fn lemma_invalid_chunk_contributes_nothing(chunk: Seq<u8>)
    requires
        !valid_utf8(chunk),
    ensures
        chunk_text(chunk) == Seq::<char>::empty(),
{
}

/// A chunk that is exactly `[`, `]` or `,` after white-space trimming is
/// pure array punctuation and contributes nothing.
pub proof fn lemma_punctuation_chunk_contributes_nothing(chunk: Seq<u8>)
    requires
        valid_utf8(chunk),
        crate::fragment::trim(decode_utf8(chunk)) == seq!['['] || crate::fragment::trim(
            decode_utf8(chunk),
        ) == seq![']'] || crate::fragment::trim(decode_utf8(chunk)) == seq![','],
    ensures
        chunk_text(chunk) == Seq::<char>::empty(),
{
    let t = crate::fragment::trim(decode_utf8(chunk));
    assert(t.drop_first() =~= Seq::<char>::empty());
    assert(t.drop_last() =~= Seq::<char>::empty());
    assert(clean_fragment(decode_utf8(chunk)) =~= Seq::<char>::empty());
}

/// Accumulates the text of a chunk stream, one chunk at a time.  Its
/// view is the text gathered so far; feeding a chunk appends exactly
/// that chunk's contribution.
pub struct Reassembler {
    out: String,
}

impl View for Reassembler {
    type V = Seq<char>;

    closed spec fn view(&self) -> Seq<char> {
        self.out@
    }
}

impl Reassembler {
    /// An empty reassembler: no chunk seen, no text gathered.
    pub fn new() -> (r: Self)
        ensures
            r@ == Seq::<char>::empty(),
    {
        Reassembler { out: String::new() }
    }

    /// Feeds one chunk: the gathered text grows by exactly what the
    /// chunk contributes, which is nothing when the chunk is skipped.
    pub fn push_chunk(&mut self, chunk: &[u8])
        ensures
            final(self)@ == old(self)@ + chunk_text(chunk@),
    {
        if !utf8_valid(chunk) {
            proof {
                assert(self@ =~= old(self)@ + chunk_text(chunk@));
            }
            return ;
        }
        let decoded = string_from_utf8(slice_to_vec(chunk));
        let cleaned = clean_fragment_str(decoded.as_str());
        if cleaned.as_str().is_empty() {
            proof {
                assert(self@ =~= old(self)@ + chunk_text(chunk@));
            }
            return ;
        }
        let bytes = cleaned.as_str().as_bytes_vec();
        match parse_response_bytes(bytes.as_slice()) {
            None => {
                proof {
                    assert(self@ =~= old(self)@ + chunk_text(chunk@));
                }
            },
            Some(resp) => {
                crate::response::append_response_text(&resp, &mut self.out);
            },
        }
    }

    /// Hands the gathered text out, consuming the reassembler.
    pub fn into_text(self) -> (r: String)
        ensures
            r@ == self@,
    {
        self.out
    }
}

/// Reassembles a complete, already-collected chunk stream: the result is
/// the concatenation of every chunk's contribution — every `text` field
/// of every chunk that parses, in arrival order.
pub fn assemble_chunks(chunks: &Vec<Vec<u8>>) -> (r: String)
    ensures
        r@ == stream_text(chunks_view(chunks@)),
{
    let ghost cv = chunks_view(chunks@);
    let mut acc = Reassembler::new();
    let n = chunks.len();
    let mut i: usize = 0;
    while i < n
        invariant
            i <= n == chunks@.len(),
            cv == chunks_view(chunks@),
            acc@ == stream_text(cv.take(i as int)),
        decreases n - i,
    {
        acc.push_chunk(chunks[i].as_slice());
        proof {
            assert(cv.take(i as int + 1).drop_last() =~= cv.take(i as int));
            assert(cv.take(i as int + 1).last() == cv[i as int]);
        }
        i = i + 1;
    }
    proof {
        assert(cv.take(n as int) =~= cv);
    }
    acc.into_text()
}

} // verus!
