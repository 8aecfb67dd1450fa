//! The response object of the generation endpoint, and its parse.
//!
//! A response object is JSON of the shape
//! `{"candidates": [{"content": {"parts": [{"text": "..."}]}}]}` where
//! every level is optional: a missing or `null` field is simply nothing
//! to extract.  Unknown fields are skipped; a known field holding a value
//! of the wrong type, a duplicated known field, or anything that is not
//! a single well-formed JSON object makes the whole parse fail.
//!
//! The specification functions define the parse over the fragment's
//! bytes; the exec parser mirrors them.  Extraction walks a parsed
//! response and concatenates every `text` field in order.

use vstd::prelude::*;
use vstd::string::StringExecFns;
use vstd::utf8::*;
use crate::json::{skip_ws, skip_value, parse_string_body};
use crate::encoding::string_from_utf8;

verus! {

/// One segment of a candidate's content.
#[derive(Debug, Clone, PartialEq)]
pub struct Part {
    pub text: Option<String>,
}

/// The content of one candidate.
#[derive(Debug, Clone, PartialEq)]
pub struct Content {
    pub parts: Option<Vec<Part>>,
}

/// One alternative answer in a response object.
#[derive(Debug, Clone, PartialEq)]
pub struct Candidate {
    pub content: Option<Content>,
}

/// One parsed response object of the stream.
#[derive(Debug, Clone, PartialEq)]
pub struct ParsedResponse {
    pub candidates: Option<Vec<Candidate>>,
}

/// Mathematical shape of [`Part`].
pub struct PartView {
    pub text: Option<Seq<char>>,
}

/// Mathematical shape of [`Content`].
pub struct ContentView {
    pub parts: Option<Seq<PartView>>,
}

/// Mathematical shape of [`Candidate`].
pub struct CandidateView {
    pub content: Option<ContentView>,
}

/// Mathematical shape of [`ParsedResponse`].
pub struct ResponseView {
    pub candidates: Option<Seq<CandidateView>>,
}

impl View for Part {
    type V = PartView;

    open spec fn view(&self) -> PartView {
        PartView {
            text: match self.text {
                Some(t) => Some(t@),
                None => None,
            },
        }
    }
}

/// The views of a part list's elements, in order.
pub open spec fn parts_seq_view(v: Seq<Part>) -> Seq<PartView> {
    Seq::new(v.len(), |k: int| v[k]@)
}

/// The views of a candidate list's elements, in order.
pub open spec fn candidates_seq_view(v: Seq<Candidate>) -> Seq<CandidateView> {
    Seq::new(v.len(), |k: int| v[k]@)
}

impl View for Content {
    type V = ContentView;

    open spec fn view(&self) -> ContentView {
        ContentView {
            parts: match self.parts {
                Some(v) => Some(parts_seq_view(v@)),
                None => None,
            },
        }
    }
}

impl View for Candidate {
    type V = CandidateView;

    open spec fn view(&self) -> CandidateView {
        CandidateView {
            content: match self.content {
                Some(c) => Some(c@),
                None => None,
            },
        }
    }
}

impl View for ParsedResponse {
    type V = ResponseView;

    open spec fn view(&self) -> ResponseView {
        ResponseView {
            candidates: match self.candidates {
                Some(v) => Some(candidates_seq_view(v@)),
                None => None,
            },
        }
    }
}

/// The characters of the key that holds the candidate list.
pub open spec fn candidates_key() -> Seq<char> {
    seq!['c', 'a', 'n', 'd', 'i', 'd', 'a', 't', 'e', 's']
}

/// The characters of the key that holds a candidate's content.
pub open spec fn content_key() -> Seq<char> {
    seq!['c', 'o', 'n', 't', 'e', 'n', 't']
}

/// The characters of the key that holds the content's part list.
pub open spec fn parts_key() -> Seq<char> {
    seq!['p', 'a', 'r', 't', 's']
}

/// The characters of the key that holds a part's text.
pub open spec fn text_key() -> Seq<char> {
    seq!['t', 'e', 'x', 't']
}

/// True when the bytes at `i` spell the literal word `null`.
pub open spec fn at_null(s: Seq<u8>, i: int) -> bool {
    0 <= i && i + 4 <= s.len() && s[i] == 0x6e && s[i + 1] == 0x75 && s[i + 2] == 0x6c && s[i + 3]
        == 0x6c
}

/// The value of a `text` field: `null` or a string.
pub open spec fn parse_text_value(s: Seq<u8>, i: int) -> Option<(Option<Seq<char>>, int)> {
    if at_null(s, i) {
        Some((None, i + 4))
    } else if 0 <= i && i < s.len() && s[i] == 0x22 {
        match parse_string_body(s, i + 1) {
            None => None,
            Some((cs, j)) => Some((Some(cs), j)),
        }
    } else {
        None
    }
}

/// A part object: `{ "text": ..., (unknown fields skipped) }`.
pub open spec fn parse_part_obj(s: Seq<u8>, i: int) -> Option<(PartView, int)>
    decreases s.len() - i, 2int,
{
    if !(0 <= i && i < s.len() && s[i] == 0x7b) {
        None
    } else {
        let j = skip_ws(s, i + 1);
        if j < s.len() && s[j] == 0x7d {
            Some((PartView { text: None }, j + 1))
        } else if i < j && j < s.len() {
            parse_part_members(s, j, None)
        } else {
            None
        }
    }
}

/// The members of a part object, from the key at `i`, with the `text`
/// value seen so far.
pub open spec fn parse_part_members(s: Seq<u8>, i: int, acc: Option<Option<Seq<char>>>) -> Option<
    (PartView, int),
>
    decreases s.len() - i, 1int,
{
    if !(0 <= i && i < s.len() && s[i] == 0x22) {
        None
    } else {
        match parse_string_body(s, i + 1) {
            None => None,
            Some((key, j)) => {
                let c = skip_ws(s, j);
                if !(c < s.len() && s[c] == 0x3a) {
                    None
                } else {
                    let v = skip_ws(s, c + 1);
                    if !(i < v && v <= s.len()) {
                        None
                    } else {
                        let stepped: Option<(Option<Option<Seq<char>>>, int)> = if key
                            == text_key() {
                            if acc is Some {
                                None
                            } else {
                                match parse_text_value(s, v) {
                                    None => None,
                                    Some((t, e)) => Some((Some(t), e)),
                                }
                            }
                        } else {
                            match skip_value(s, v) {
                                None => None,
                                Some(e) => Some((acc, e)),
                            }
                        };
                        match stepped {
                            None => None,
                            Some((acc2, e)) => {
                                let t = skip_ws(s, e);
                                if t < s.len() && s[t] == 0x7d {
                                    Some(
                                        (
                                            PartView {
                                                text: match acc2 {
                                                    Some(x) => x,
                                                    None => None,
                                                },
                                            },
                                            t + 1,
                                        ),
                                    )
                                } else if t < s.len() && s[t] == 0x2c {
                                    let k = skip_ws(s, t + 1);
                                    if i < k && k < s.len() {
                                        parse_part_members(s, k, acc2)
                                    } else {
                                        None
                                    }
                                } else {
                                    None
                                }
                            },
                        }
                    }
                }
            },
        }
    }
}

/// The value of a `parts` field: `null` or an array of part objects.
pub open spec fn parse_parts_value(s: Seq<u8>, i: int) -> Option<(Option<Seq<PartView>>, int)>
    decreases s.len() - i, 3int,
{
    if at_null(s, i) {
        Some((None, i + 4))
    } else if 0 <= i && i < s.len() && s[i] == 0x5b {
        let j = skip_ws(s, i + 1);
        if j < s.len() && s[j] == 0x5d {
            Some((Some(Seq::empty()), j + 1))
        } else if i < j && j < s.len() {
            match parse_parts_elems(s, j, Seq::empty()) {
                None => None,
                Some((ps, e)) => Some((Some(ps), e)),
            }
        } else {
            None
        }
    } else {
        None
    }
}

/// The elements of a part array, from the element at `i`.
pub open spec fn parse_parts_elems(s: Seq<u8>, i: int, acc: Seq<PartView>) -> Option<
    (Seq<PartView>, int),
>
    decreases s.len() - i, 4int,
{
    if !(0 <= i && i < s.len()) {
        None
    } else {
        match parse_part_obj(s, i) {
            None => None,
            Some((p, e)) => {
                let t = skip_ws(s, e);
                if t < s.len() && s[t] == 0x5d {
                    Some((acc.push(p), t + 1))
                } else if t < s.len() && s[t] == 0x2c {
                    let k = skip_ws(s, t + 1);
                    if i < k && k < s.len() {
                        parse_parts_elems(s, k, acc.push(p))
                    } else {
                        None
                    }
                } else {
                    None
                }
            },
        }
    }
}

/// A content object: `{ "parts": ..., (unknown fields skipped) }`.
pub open spec fn parse_content_obj(s: Seq<u8>, i: int) -> Option<(ContentView, int)>
    decreases s.len() - i, 2int,
{
    if !(0 <= i && i < s.len() && s[i] == 0x7b) {
        None
    } else {
        let j = skip_ws(s, i + 1);
        if j < s.len() && s[j] == 0x7d {
            Some((ContentView { parts: None }, j + 1))
        } else if i < j && j < s.len() {
            parse_content_members(s, j, None)
        } else {
            None
        }
    }
}

/// The members of a content object, from the key at `i`, with the
/// `parts` value seen so far.
pub open spec fn parse_content_members(
    s: Seq<u8>,
    i: int,
    acc: Option<Option<Seq<PartView>>>,
) -> Option<(ContentView, int)>
    decreases s.len() - i, 1int,
{
    if !(0 <= i && i < s.len() && s[i] == 0x22) {
        None
    } else {
        match parse_string_body(s, i + 1) {
            None => None,
            Some((key, j)) => {
                let c = skip_ws(s, j);
                if !(c < s.len() && s[c] == 0x3a) {
                    None
                } else {
                    let v = skip_ws(s, c + 1);
                    if !(i < v && v <= s.len()) {
                        None
                    } else {
                        let stepped: Option<(Option<Option<Seq<PartView>>>, int)> = if key
                            == parts_key() {
                            if acc is Some {
                                None
                            } else {
                                match parse_parts_value(s, v) {
                                    None => None,
                                    Some((ps, e)) => Some((Some(ps), e)),
                                }
                            }
                        } else {
                            match skip_value(s, v) {
                                None => None,
                                Some(e) => Some((acc, e)),
                            }
                        };
                        match stepped {
                            None => None,
                            Some((acc2, e)) => {
                                let t = skip_ws(s, e);
                                if t < s.len() && s[t] == 0x7d {
                                    Some(
                                        (
                                            ContentView {
                                                parts: match acc2 {
                                                    Some(x) => x,
                                                    None => None,
                                                },
                                            },
                                            t + 1,
                                        ),
                                    )
                                } else if t < s.len() && s[t] == 0x2c {
                                    let k = skip_ws(s, t + 1);
                                    if i < k && k < s.len() {
                                        parse_content_members(s, k, acc2)
                                    } else {
                                        None
                                    }
                                } else {
                                    None
                                }
                            },
                        }
                    }
                }
            },
        }
    }
}

/// The value of a `content` field: `null` or a content object.
pub open spec fn parse_content_value(s: Seq<u8>, i: int) -> Option<(Option<ContentView>, int)>
    decreases s.len() - i, 3int,
{
    if at_null(s, i) {
        Some((None, i + 4))
    } else if 0 <= i && i < s.len() && s[i] == 0x7b {
        match parse_content_obj(s, i) {
            None => None,
            Some((c, e)) => Some((Some(c), e)),
        }
    } else {
        None
    }
}

/// A candidate object: `{ "content": ..., (unknown fields skipped) }`.
pub open spec fn parse_candidate_obj(s: Seq<u8>, i: int) -> Option<(CandidateView, int)>
    decreases s.len() - i, 2int,
{
    if !(0 <= i && i < s.len() && s[i] == 0x7b) {
        None
    } else {
        let j = skip_ws(s, i + 1);
        if j < s.len() && s[j] == 0x7d {
            Some((CandidateView { content: None }, j + 1))
        } else if i < j && j < s.len() {
            parse_candidate_members(s, j, None)
        } else {
            None
        }
    }
}

/// The members of a candidate object, from the key at `i`, with the
/// `content` value seen so far.
pub open spec fn parse_candidate_members(
    s: Seq<u8>,
    i: int,
    acc: Option<Option<ContentView>>,
) -> Option<(CandidateView, int)>
    decreases s.len() - i, 1int,
{
    if !(0 <= i && i < s.len() && s[i] == 0x22) {
        None
    } else {
        match parse_string_body(s, i + 1) {
            None => None,
            Some((key, j)) => {
                let c = skip_ws(s, j);
                if !(c < s.len() && s[c] == 0x3a) {
                    None
                } else {
                    let v = skip_ws(s, c + 1);
                    if !(i < v && v <= s.len()) {
                        None
                    } else {
                        let stepped: Option<(Option<Option<ContentView>>, int)> = if key
                            == content_key() {
                            if acc is Some {
                                None
                            } else {
                                match parse_content_value(s, v) {
                                    None => None,
                                    Some((cv, e)) => Some((Some(cv), e)),
                                }
                            }
                        } else {
                            match skip_value(s, v) {
                                None => None,
                                Some(e) => Some((acc, e)),
                            }
                        };
                        match stepped {
                            None => None,
                            Some((acc2, e)) => {
                                let t = skip_ws(s, e);
                                if t < s.len() && s[t] == 0x7d {
                                    Some(
                                        (
                                            CandidateView {
                                                content: match acc2 {
                                                    Some(x) => x,
                                                    None => None,
                                                },
                                            },
                                            t + 1,
                                        ),
                                    )
                                } else if t < s.len() && s[t] == 0x2c {
                                    let k = skip_ws(s, t + 1);
                                    if i < k && k < s.len() {
                                        parse_candidate_members(s, k, acc2)
                                    } else {
                                        None
                                    }
                                } else {
                                    None
                                }
                            },
                        }
                    }
                }
            },
        }
    }
}

/// The value of a `candidates` field: `null` or an array of candidate
/// objects.
pub open spec fn parse_candidates_value(s: Seq<u8>, i: int) -> Option<
    (Option<Seq<CandidateView>>, int),
>
    decreases s.len() - i, 3int,
{
    if at_null(s, i) {
        Some((None, i + 4))
    } else if 0 <= i && i < s.len() && s[i] == 0x5b {
        let j = skip_ws(s, i + 1);
        if j < s.len() && s[j] == 0x5d {
            Some((Some(Seq::empty()), j + 1))
        } else if i < j && j < s.len() {
            match parse_candidates_elems(s, j, Seq::empty()) {
                None => None,
                Some((cs, e)) => Some((Some(cs), e)),
            }
        } else {
            None
        }
    } else {
        None
    }
}

/// The elements of a candidate array, from the element at `i`.
pub open spec fn parse_candidates_elems(s: Seq<u8>, i: int, acc: Seq<CandidateView>) -> Option<
    (Seq<CandidateView>, int),
>
    decreases s.len() - i, 4int,
{
    if !(0 <= i && i < s.len()) {
        None
    } else {
        match parse_candidate_obj(s, i) {
            None => None,
            Some((cand, e)) => {
                let t = skip_ws(s, e);
                if t < s.len() && s[t] == 0x5d {
                    Some((acc.push(cand), t + 1))
                } else if t < s.len() && s[t] == 0x2c {
                    let k = skip_ws(s, t + 1);
                    if i < k && k < s.len() {
                        parse_candidates_elems(s, k, acc.push(cand))
                    } else {
                        None
                    }
                } else {
                    None
                }
            },
        }
    }
}

/// A response object: `{ "candidates": ..., (unknown fields skipped) }`.
pub open spec fn parse_response_obj(s: Seq<u8>, i: int) -> Option<(ResponseView, int)>
    decreases s.len() - i, 2int,
{
    if !(0 <= i && i < s.len() && s[i] == 0x7b) {
        None
    } else {
        let j = skip_ws(s, i + 1);
        if j < s.len() && s[j] == 0x7d {
            Some((ResponseView { candidates: None }, j + 1))
        } else if i < j && j < s.len() {
            parse_response_members(s, j, None)
        } else {
            None
        }
    }
}

/// The members of a response object, from the key at `i`, with the
/// `candidates` value seen so far.
pub open spec fn parse_response_members(
    s: Seq<u8>,
    i: int,
    acc: Option<Option<Seq<CandidateView>>>,
) -> Option<(ResponseView, int)>
    decreases s.len() - i, 1int,
{
    if !(0 <= i && i < s.len() && s[i] == 0x22) {
        None
    } else {
        match parse_string_body(s, i + 1) {
            None => None,
            Some((key, j)) => {
                let c = skip_ws(s, j);
                if !(c < s.len() && s[c] == 0x3a) {
                    None
                } else {
                    let v = skip_ws(s, c + 1);
                    if !(i < v && v <= s.len()) {
                        None
                    } else {
                        let stepped: Option<(Option<Option<Seq<CandidateView>>>, int)> = if key
                            == candidates_key() {
                            if acc is Some {
                                None
                            } else {
                                match parse_candidates_value(s, v) {
                                    None => None,
                                    Some((cv, e)) => Some((Some(cv), e)),
                                }
                            }
                        } else {
                            match skip_value(s, v) {
                                None => None,
                                Some(e) => Some((acc, e)),
                            }
                        };
                        match stepped {
                            None => None,
                            Some((acc2, e)) => {
                                let t = skip_ws(s, e);
                                if t < s.len() && s[t] == 0x7d {
                                    Some(
                                        (
                                            ResponseView {
                                                candidates: match acc2 {
                                                    Some(x) => x,
                                                    None => None,
                                                },
                                            },
                                            t + 1,
                                        ),
                                    )
                                } else if t < s.len() && s[t] == 0x2c {
                                    let k = skip_ws(s, t + 1);
                                    if i < k && k < s.len() {
                                        parse_response_members(s, k, acc2)
                                    } else {
                                        None
                                    }
                                } else {
                                    None
                                }
                            },
                        }
                    }
                }
            },
        }
    }
}

/// The parse of a whole cleaned fragment: exactly one response object,
/// possibly surrounded by white space.
pub open spec fn parse_response(s: Seq<u8>) -> Option<ResponseView> {
    let i = skip_ws(s, 0);
    match parse_response_obj(s, i) {
        None => None,
        Some((r, j)) => if skip_ws(s, j) == s.len() {
            Some(r)
        } else {
            None
        },
    }
}

/// The text a part contributes.
pub open spec fn part_text(p: PartView) -> Seq<char> {
    match p.text {
        Some(t) => t,
        None => Seq::empty(),
    }
}

/// The text a part list contributes, in order.
pub open spec fn parts_text(ps: Seq<PartView>) -> Seq<char>
    decreases ps.len(),
{
    if ps.len() == 0 {
        Seq::empty()
    } else {
        parts_text(ps.drop_last()) + part_text(ps.last())
    }
}

/// The text a candidate contributes.
pub open spec fn candidate_text(c: CandidateView) -> Seq<char> {
    match c.content {
        Some(content) => match content.parts {
            Some(ps) => parts_text(ps),
            None => Seq::empty(),
        },
        None => Seq::empty(),
    }
}

/// The text a candidate list contributes, in order.
pub open spec fn candidates_text(cs: Seq<CandidateView>) -> Seq<char>
    decreases cs.len(),
{
    if cs.len() == 0 {
        Seq::empty()
    } else {
        candidates_text(cs.drop_last()) + candidate_text(cs.last())
    }
}

/// All the text a parsed response contributes: every `text` field across
/// all candidates and parts, in order.
pub open spec fn response_text(r: ResponseView) -> Seq<char> {
    match r.candidates {
        Some(cs) => candidates_text(cs),
        None => Seq::empty(),
    }
}

/// View of an in-progress `text` member accumulator.
pub open spec fn text_acc_view(acc: Option<Option<String>>) -> Option<Option<Seq<char>>> {
    match acc {
        None => None,
        Some(None) => Some(None),
        Some(Some(t)) => Some(Some(t@)),
    }
}

/// View of an in-progress `parts` member accumulator.
pub open spec fn parts_acc_view(acc: Option<Option<Vec<Part>>>) -> Option<Option<Seq<PartView>>> {
    match acc {
        None => None,
        Some(None) => Some(None),
        Some(Some(v)) => Some(Some(parts_seq_view(v@))),
    }
}

/// View of an in-progress `content` member accumulator.
pub open spec fn content_acc_view(acc: Option<Option<Content>>) -> Option<Option<ContentView>> {
    match acc {
        None => None,
        Some(None) => Some(None),
        Some(Some(c)) => Some(Some(c@)),
    }
}

/// View of an in-progress `candidates` member accumulator.
pub open spec fn candidates_acc_view(acc: Option<Option<Vec<Candidate>>>) -> Option<
    Option<Seq<CandidateView>>,
> {
    match acc {
        None => None,
        Some(None) => Some(None),
        Some(Some(v)) => Some(Some(candidates_seq_view(v@))),
    }
}

/// Encodings of equal character sequences are equal, and conversely:
/// UTF-8 encoding loses nothing.
proof fn lemma_encode_injective(a: Seq<char>, b: Seq<char>)
    ensures
        (encode_utf8(a) == encode_utf8(b)) <==> (a == b),
{
    if encode_utf8(a) == encode_utf8(b) {
        encode_utf8_decode_utf8(a);
        encode_utf8_decode_utf8(b);
    }
}

/// Decides whether decoded key bytes spell `candidates`.
fn is_candidates_key(kb: &Vec<u8>) -> (r: bool)
    ensures
        r == (kb@ == encode_utf8(candidates_key())),
{
    let r = kb.len() == 10 && kb[0] == 0x63 && kb[1] == 0x61 && kb[2] == 0x6e && kb[3] == 0x64
        && kb[4] == 0x69 && kb[5] == 0x64 && kb[6] == 0x61 && kb[7] == 0x74 && kb[8] == 0x65
        && kb[9] == 0x73;
    proof {
        is_ascii_chars_encode_utf8(candidates_key());
        assert(encode_utf8(candidates_key()) =~= seq![
            0x63u8,
            0x61,
            0x6e,
            0x64,
            0x69,
            0x64,
            0x61,
            0x74,
            0x65,
            0x73,
        ]);
        if r {
            assert(kb@ =~= encode_utf8(candidates_key()));
        }
    }
    r
}

/// Decides whether decoded key bytes spell `content`.
fn is_content_key(kb: &Vec<u8>) -> (r: bool)
    ensures
        r == (kb@ == encode_utf8(content_key())),
{
    let r = kb.len() == 7 && kb[0] == 0x63 && kb[1] == 0x6f && kb[2] == 0x6e && kb[3] == 0x74
        && kb[4] == 0x65 && kb[5] == 0x6e && kb[6] == 0x74;
    proof {
        is_ascii_chars_encode_utf8(content_key());
        assert(encode_utf8(content_key()) =~= seq![0x63u8, 0x6f, 0x6e, 0x74, 0x65, 0x6e, 0x74]);
        if r {
            assert(kb@ =~= encode_utf8(content_key()));
        }
    }
    r
}

/// Decides whether decoded key bytes spell `parts`.
fn is_parts_key(kb: &Vec<u8>) -> (r: bool)
    ensures
        r == (kb@ == encode_utf8(parts_key())),
{
    let r = kb.len() == 5 && kb[0] == 0x70 && kb[1] == 0x61 && kb[2] == 0x72 && kb[3] == 0x74
        && kb[4] == 0x73;
    proof {
        is_ascii_chars_encode_utf8(parts_key());
        assert(encode_utf8(parts_key()) =~= seq![0x70u8, 0x61, 0x72, 0x74, 0x73]);
        if r {
            assert(kb@ =~= encode_utf8(parts_key()));
        }
    }
    r
}

/// Decides whether decoded key bytes spell `text`.
fn is_text_key(kb: &Vec<u8>) -> (r: bool)
    ensures
        r == (kb@ == encode_utf8(text_key())),
{
    let r = kb.len() == 4 && kb[0] == 0x74 && kb[1] == 0x65 && kb[2] == 0x78 && kb[3] == 0x74;
    proof {
        is_ascii_chars_encode_utf8(text_key());
        assert(encode_utf8(text_key()) =~= seq![0x74u8, 0x65, 0x78, 0x74]);
        if r {
            assert(kb@ =~= encode_utf8(text_key()));
        }
    }
    r
}

/// Reads the literal word `null` at `i`, returning the index past it.
fn scan_null(s: &[u8], i: usize) -> (r: Option<usize>)
    requires
        i <= s@.len(),
    ensures
        match r {
            Some(j) => at_null(s@, i as int) && j as int == i as int + 4,
            None => !at_null(s@, i as int),
        },
{
    if s.len() - i >= 4 && s[i] == 0x6e && s[i + 1] == 0x75 && s[i + 2] == 0x6c && s[i + 3]
        == 0x6c {
        Some(i + 4)
    } else {
        None
    }
}

/// Reads one member key: the string at `i`, decoded.
fn scan_key(s: &[u8], i: usize) -> (r: Option<(Vec<u8>, usize)>)
    requires
        i <= s@.len(),
        i < s@.len() ==> s@[i as int] == 0x22,
    ensures
        match (r, parse_string_body(s@, i as int + 1)) {
            (Some((kb, j)), Some(sp)) => kb@ == encode_utf8(sp.0) && j as int == sp.1 && i + 1 < j
                <= s@.len(),
            (None, None) => true,
            _ => false,
        },
{
    if i >= s.len() {
        return None;
    }
    let mut kb: Vec<u8> = Vec::new();
    match crate::json::scan_string(s, i + 1, &mut kb) {
        None => None,
        Some(j) => Some((kb, j)),
    }
}

/// Exec counterpart of [`parse_text_value`].
fn scan_text_value(s: &[u8], i: usize) -> (r: Option<(Option<String>, usize)>)
    requires
        i <= s@.len(),
    ensures
        match (r, parse_text_value(s@, i as int)) {
            (Some((t, j)), Some(sp)) => text_acc_view(Some(t)) == Some(sp.0) && j as int == sp.1
                && i < j <= s@.len(),
            (None, None) => true,
            _ => false,
        },
{
    if let Some(j) = scan_null(s, i) {
        return Some((None, j));
    }
    if i < s.len() && s[i] == 0x22 {
        let mut buf: Vec<u8> = Vec::new();
        match crate::json::scan_string(s, i + 1, &mut buf) {
            None => None,
            Some(j) => {
                let ghost cs = parse_string_body(s@, i as int + 1)->Some_0.0;
                proof {
                    encode_utf8_valid_utf8(cs);
                    encode_utf8_decode_utf8(cs);
                }
                let st = string_from_utf8(buf);
                Some((Some(st), j))
            },
        }
    } else {
        None
    }
}

/// Exec counterpart of [`parse_part_obj`].
fn scan_part_obj(s: &[u8], i: usize) -> (r: Option<(Part, usize)>)
    requires
        i <= s@.len(),
    ensures
        match (r, parse_part_obj(s@, i as int)) {
            (Some((p, j)), Some(sp)) => p@ == sp.0 && j as int == sp.1 && i < j <= s@.len(),
            (None, None) => true,
            _ => false,
        },
    decreases s@.len() - i, 2int,
{
    if !(i < s.len() && s[i] == 0x7b) {
        return None;
    }
    let j = crate::json::scan_ws(s, i + 1);
    if j < s.len() && s[j] == 0x7d {
        Some((Part { text: None }, j + 1))
    } else if j < s.len() {
        scan_part_members(s, j, None)
    } else {
        None
    }
}

/// Exec counterpart of [`parse_part_members`].
fn scan_part_members(s: &[u8], i: usize, acc: Option<Option<String>>) -> (r: Option<
    (Part, usize),
>)
    requires
        i <= s@.len(),
    ensures
        match (r, parse_part_members(s@, i as int, text_acc_view(acc))) {
            (Some((p, j)), Some(sp)) => p@ == sp.0 && j as int == sp.1 && i < j <= s@.len(),
            (None, None) => true,
            _ => false,
        },
    decreases s@.len() - i, 1int,
{
    if !(i < s.len() && s[i] == 0x22) {
        return None;
    }
    let (kb, j) = match scan_key(s, i) {
        None => {
            return None;
        },
        Some(x) => x,
    };
    let c = crate::json::scan_ws(s, j);
    if !(c < s.len() && s[c] == 0x3a) {
        return None;
    }
    let v = crate::json::scan_ws(s, c + 1);
    let ghost key = parse_string_body(s@, i as int + 1)->Some_0.0;
    let acc2: Option<Option<String>>;
    let e: usize;
    if is_text_key(&kb) {
        proof {
            lemma_encode_injective(key, text_key());
        }
        if acc.is_some() {
            return None;
        }
        match scan_text_value(s, v) {
            None => {
                return None;
            },
            Some((t, e2)) => {
                acc2 = Some(t);
                e = e2;
            },
        }
    } else {
        proof {
            lemma_encode_injective(key, text_key());
        }
        match crate::json::scan_value(s, v) {
            None => {
                return None;
            },
            Some(e2) => {
                acc2 = acc;
                e = e2;
            },
        }
    }
    let t = crate::json::scan_ws(s, e);
    if t < s.len() && s[t] == 0x7d {
        let text = match acc2 {
            Some(x) => x,
            None => None,
        };
        Some((Part { text }, t + 1))
    } else if t < s.len() && s[t] == 0x2c {
        let k = crate::json::scan_ws(s, t + 1);
        if k < s.len() {
            scan_part_members(s, k, acc2)
        } else {
            None
        }
    } else {
        None
    }
}

/// Exec counterpart of [`parse_parts_value`].
fn scan_parts_value(s: &[u8], i: usize) -> (r: Option<(Option<Vec<Part>>, usize)>)
    requires
        i <= s@.len(),
    ensures
        match (r, parse_parts_value(s@, i as int)) {
            (Some((ps, j)), Some(sp)) => parts_acc_view(Some(ps)) == Some(sp.0) && j as int == sp.1
                && i < j <= s@.len(),
            (None, None) => true,
            _ => false,
        },
    decreases s@.len() - i, 3int,
{
    if let Some(j) = scan_null(s, i) {
        return Some((None, j));
    }
    if i < s.len() && s[i] == 0x5b {
        let j = crate::json::scan_ws(s, i + 1);
        if j < s.len() && s[j] == 0x5d {
            let empty: Vec<Part> = Vec::new();
            proof {
                assert(parts_seq_view(empty@) =~= Seq::<PartView>::empty());
            }
            Some((Some(empty), j + 1))
        } else if j < s.len() {
            let acc: Vec<Part> = Vec::new();
            proof {
                assert(parts_seq_view(acc@) =~= Seq::<PartView>::empty());
            }
            match scan_parts_elems(s, j, acc) {
                None => None,
                Some((ps, e)) => Some((Some(ps), e)),
            }
        } else {
            None
        }
    } else {
        None
    }
}

/// Exec counterpart of [`parse_parts_elems`].
fn scan_parts_elems(s: &[u8], i: usize, acc: Vec<Part>) -> (r: Option<(Vec<Part>, usize)>)
    requires
        i <= s@.len(),
    ensures
        match (r, parse_parts_elems(s@, i as int, parts_seq_view(acc@))) {
            (Some((ps, j)), Some(sp)) => parts_seq_view(ps@) == sp.0 && j as int == sp.1 && i < j
                <= s@.len(),
            (None, None) => true,
            _ => false,
        },
    decreases s@.len() - i, 4int,
{
    if i >= s.len() {
        return None;
    }
    let (p, e) = match scan_part_obj(s, i) {
        None => {
            return None;
        },
        Some(x) => x,
    };
    let ghost acc0 = parts_seq_view(acc@);
    let ghost pv = p@;
    let mut acc = acc;
    acc.push(p);
    proof {
        assert(parts_seq_view(acc@) =~= acc0.push(pv));
    }
    let t = crate::json::scan_ws(s, e);
    if t < s.len() && s[t] == 0x5d {
        Some((acc, t + 1))
    } else if t < s.len() && s[t] == 0x2c {
        let k = crate::json::scan_ws(s, t + 1);
        if k < s.len() {
            scan_parts_elems(s, k, acc)
        } else {
            None
        }
    } else {
        None
    }
}

/// Exec counterpart of [`parse_content_obj`].
fn scan_content_obj(s: &[u8], i: usize) -> (r: Option<(Content, usize)>)
    requires
        i <= s@.len(),
    ensures
        match (r, parse_content_obj(s@, i as int)) {
            (Some((c, j)), Some(sp)) => c@ == sp.0 && j as int == sp.1 && i < j <= s@.len(),
            (None, None) => true,
            _ => false,
        },
    decreases s@.len() - i, 2int,
{
    if !(i < s.len() && s[i] == 0x7b) {
        return None;
    }
    let j = crate::json::scan_ws(s, i + 1);
    if j < s.len() && s[j] == 0x7d {
        Some((Content { parts: None }, j + 1))
    } else if j < s.len() {
        scan_content_members(s, j, None)
    } else {
        None
    }
}

/// Exec counterpart of [`parse_content_members`].
fn scan_content_members(s: &[u8], i: usize, acc: Option<Option<Vec<Part>>>) -> (r: Option<
    (Content, usize),
>)
    requires
        i <= s@.len(),
    ensures
        match (r, parse_content_members(s@, i as int, parts_acc_view(acc))) {
            (Some((c, j)), Some(sp)) => c@ == sp.0 && j as int == sp.1 && i < j <= s@.len(),
            (None, None) => true,
            _ => false,
        },
    decreases s@.len() - i, 1int,
{
    if !(i < s.len() && s[i] == 0x22) {
        return None;
    }
    let (kb, j) = match scan_key(s, i) {
        None => {
            return None;
        },
        Some(x) => x,
    };
    let c = crate::json::scan_ws(s, j);
    if !(c < s.len() && s[c] == 0x3a) {
        return None;
    }
    let v = crate::json::scan_ws(s, c + 1);
    let ghost key = parse_string_body(s@, i as int + 1)->Some_0.0;
    let acc2: Option<Option<Vec<Part>>>;
    let e: usize;
    if is_parts_key(&kb) {
        proof {
            lemma_encode_injective(key, parts_key());
        }
        if acc.is_some() {
            return None;
        }
        match scan_parts_value(s, v) {
            None => {
                return None;
            },
            Some((ps, e2)) => {
                acc2 = Some(ps);
                e = e2;
            },
        }
    } else {
        proof {
            lemma_encode_injective(key, parts_key());
        }
        match crate::json::scan_value(s, v) {
            None => {
                return None;
            },
            Some(e2) => {
                acc2 = acc;
                e = e2;
            },
        }
    }
    let t = crate::json::scan_ws(s, e);
    if t < s.len() && s[t] == 0x7d {
        let parts = match acc2 {
            Some(x) => x,
            None => None,
        };
        Some((Content { parts }, t + 1))
    } else if t < s.len() && s[t] == 0x2c {
        let k = crate::json::scan_ws(s, t + 1);
        if k < s.len() {
            scan_content_members(s, k, acc2)
        } else {
            None
        }
    } else {
        None
    }
}

/// Exec counterpart of [`parse_content_value`].
fn scan_content_value(s: &[u8], i: usize) -> (r: Option<(Option<Content>, usize)>)
    requires
        i <= s@.len(),
    ensures
        match (r, parse_content_value(s@, i as int)) {
            (Some((c, j)), Some(sp)) => content_acc_view(Some(c)) == Some(sp.0) && j as int == sp.1
                && i < j <= s@.len(),
            (None, None) => true,
            _ => false,
        },
    decreases s@.len() - i, 3int,
{
    if let Some(j) = scan_null(s, i) {
        return Some((None, j));
    }
    if i < s.len() && s[i] == 0x7b {
        match scan_content_obj(s, i) {
            None => None,
            Some((c, e)) => Some((Some(c), e)),
        }
    } else {
        None
    }
}

/// Exec counterpart of [`parse_candidate_obj`].
fn scan_candidate_obj(s: &[u8], i: usize) -> (r: Option<(Candidate, usize)>)
    requires
        i <= s@.len(),
    ensures
        match (r, parse_candidate_obj(s@, i as int)) {
            (Some((c, j)), Some(sp)) => c@ == sp.0 && j as int == sp.1 && i < j <= s@.len(),
            (None, None) => true,
            _ => false,
        },
    decreases s@.len() - i, 2int,
{
    if !(i < s.len() && s[i] == 0x7b) {
        return None;
    }
    let j = crate::json::scan_ws(s, i + 1);
    if j < s.len() && s[j] == 0x7d {
        Some((Candidate { content: None }, j + 1))
    } else if j < s.len() {
        scan_candidate_members(s, j, None)
    } else {
        None
    }
}

/// Exec counterpart of [`parse_candidate_members`].
fn scan_candidate_members(s: &[u8], i: usize, acc: Option<Option<Content>>) -> (r: Option<
    (Candidate, usize),
>)
    requires
        i <= s@.len(),
    ensures
        match (r, parse_candidate_members(s@, i as int, content_acc_view(acc))) {
            (Some((c, j)), Some(sp)) => c@ == sp.0 && j as int == sp.1 && i < j <= s@.len(),
            (None, None) => true,
            _ => false,
        },
    decreases s@.len() - i, 1int,
{
    if !(i < s.len() && s[i] == 0x22) {
        return None;
    }
    let (kb, j) = match scan_key(s, i) {
        None => {
            return None;
        },
        Some(x) => x,
    };
    let c = crate::json::scan_ws(s, j);
    if !(c < s.len() && s[c] == 0x3a) {
        return None;
    }
    let v = crate::json::scan_ws(s, c + 1);
    let ghost key = parse_string_body(s@, i as int + 1)->Some_0.0;
    let acc2: Option<Option<Content>>;
    let e: usize;
    if is_content_key(&kb) {
        proof {
            lemma_encode_injective(key, content_key());
        }
        if acc.is_some() {
            return None;
        }
        match scan_content_value(s, v) {
            None => {
                return None;
            },
            Some((cv, e2)) => {
                acc2 = Some(cv);
                e = e2;
            },
        }
    } else {
        proof {
            lemma_encode_injective(key, content_key());
        }
        match crate::json::scan_value(s, v) {
            None => {
                return None;
            },
            Some(e2) => {
                acc2 = acc;
                e = e2;
            },
        }
    }
    let t = crate::json::scan_ws(s, e);
    if t < s.len() && s[t] == 0x7d {
        let content = match acc2 {
            Some(x) => x,
            None => None,
        };
        Some((Candidate { content }, t + 1))
    } else if t < s.len() && s[t] == 0x2c {
        let k = crate::json::scan_ws(s, t + 1);
        if k < s.len() {
            scan_candidate_members(s, k, acc2)
        } else {
            None
        }
    } else {
        None
    }
}

/// Exec counterpart of [`parse_candidates_value`].
fn scan_candidates_value(s: &[u8], i: usize) -> (r: Option<(Option<Vec<Candidate>>, usize)>)
    requires
        i <= s@.len(),
    ensures
        match (r, parse_candidates_value(s@, i as int)) {
            (Some((cs, j)), Some(sp)) => candidates_acc_view(Some(cs)) == Some(sp.0) && j as int
                == sp.1 && i < j <= s@.len(),
            (None, None) => true,
            _ => false,
        },
    decreases s@.len() - i, 3int,
{
    if let Some(j) = scan_null(s, i) {
        return Some((None, j));
    }
    if i < s.len() && s[i] == 0x5b {
        let j = crate::json::scan_ws(s, i + 1);
        if j < s.len() && s[j] == 0x5d {
            let empty: Vec<Candidate> = Vec::new();
            proof {
                assert(candidates_seq_view(empty@) =~= Seq::<CandidateView>::empty());
            }
            Some((Some(empty), j + 1))
        } else if j < s.len() {
            let acc: Vec<Candidate> = Vec::new();
            proof {
                assert(candidates_seq_view(acc@) =~= Seq::<CandidateView>::empty());
            }
            match scan_candidates_elems(s, j, acc) {
                None => None,
                Some((cs, e)) => Some((Some(cs), e)),
            }
        } else {
            None
        }
    } else {
        None
    }
}

/// Exec counterpart of [`parse_candidates_elems`].
fn scan_candidates_elems(s: &[u8], i: usize, acc: Vec<Candidate>) -> (r: Option<
    (Vec<Candidate>, usize),
>)
    requires
        i <= s@.len(),
    ensures
        match (r, parse_candidates_elems(s@, i as int, candidates_seq_view(acc@))) {
            (Some((cs, j)), Some(sp)) => candidates_seq_view(cs@) == sp.0 && j as int == sp.1 && i
                < j <= s@.len(),
            (None, None) => true,
            _ => false,
        },
    decreases s@.len() - i, 4int,
{
    if i >= s.len() {
        return None;
    }
    let (cand, e) = match scan_candidate_obj(s, i) {
        None => {
            return None;
        },
        Some(x) => x,
    };
    let ghost acc0 = candidates_seq_view(acc@);
    let ghost cv = cand@;
    let mut acc = acc;
    acc.push(cand);
    proof {
        assert(candidates_seq_view(acc@) =~= acc0.push(cv));
    }
    let t = crate::json::scan_ws(s, e);
    if t < s.len() && s[t] == 0x5d {
        Some((acc, t + 1))
    } else if t < s.len() && s[t] == 0x2c {
        let k = crate::json::scan_ws(s, t + 1);
        if k < s.len() {
            scan_candidates_elems(s, k, acc)
        } else {
            None
        }
    } else {
        None
    }
}

/// Exec counterpart of [`parse_response_obj`].
fn scan_response_obj(s: &[u8], i: usize) -> (r: Option<(ParsedResponse, usize)>)
    requires
        i <= s@.len(),
    ensures
        match (r, parse_response_obj(s@, i as int)) {
            (Some((x, j)), Some(sp)) => x@ == sp.0 && j as int == sp.1 && i < j <= s@.len(),
            (None, None) => true,
            _ => false,
        },
    decreases s@.len() - i, 2int,
{
    if !(i < s.len() && s[i] == 0x7b) {
        return None;
    }
    let j = crate::json::scan_ws(s, i + 1);
    if j < s.len() && s[j] == 0x7d {
        Some((ParsedResponse { candidates: None }, j + 1))
    } else if j < s.len() {
        scan_response_members(s, j, None)
    } else {
        None
    }
}

/// Exec counterpart of [`parse_response_members`].
fn scan_response_members(s: &[u8], i: usize, acc: Option<Option<Vec<Candidate>>>) -> (r: Option<
    (ParsedResponse, usize),
>)
    requires
        i <= s@.len(),
    ensures
        match (r, parse_response_members(s@, i as int, candidates_acc_view(acc))) {
            (Some((x, j)), Some(sp)) => x@ == sp.0 && j as int == sp.1 && i < j <= s@.len(),
            (None, None) => true,
            _ => false,
        },
    decreases s@.len() - i, 1int,
{
    if !(i < s.len() && s[i] == 0x22) {
        return None;
    }
    let (kb, j) = match scan_key(s, i) {
        None => {
            return None;
        },
        Some(x) => x,
    };
    let c = crate::json::scan_ws(s, j);
    if !(c < s.len() && s[c] == 0x3a) {
        return None;
    }
    let v = crate::json::scan_ws(s, c + 1);
    let ghost key = parse_string_body(s@, i as int + 1)->Some_0.0;
    let acc2: Option<Option<Vec<Candidate>>>;
    let e: usize;
    if is_candidates_key(&kb) {
        proof {
            lemma_encode_injective(key, candidates_key());
        }
        if acc.is_some() {
            return None;
        }
        match scan_candidates_value(s, v) {
            None => {
                return None;
            },
            Some((cs, e2)) => {
                acc2 = Some(cs);
                e = e2;
            },
        }
    } else {
        proof {
            lemma_encode_injective(key, candidates_key());
        }
        match crate::json::scan_value(s, v) {
            None => {
                return None;
            },
            Some(e2) => {
                acc2 = acc;
                e = e2;
            },
        }
    }
    let t = crate::json::scan_ws(s, e);
    if t < s.len() && s[t] == 0x7d {
        let candidates = match acc2 {
            Some(x) => x,
            None => None,
        };
        Some((ParsedResponse { candidates }, t + 1))
    } else if t < s.len() && s[t] == 0x2c {
        let k = crate::json::scan_ws(s, t + 1);
        if k < s.len() {
            scan_response_members(s, k, acc2)
        } else {
            None
        }
    } else {
        None
    }
}

/// Parses a whole cleaned fragment as one response object.
pub fn parse_response_bytes(s: &[u8]) -> (r: Option<ParsedResponse>)
    ensures
        match (r, parse_response(s@)) {
            (Some(x), Some(v)) => x@ == v,
            (None, None) => true,
            _ => false,
        },
{
    let i = crate::json::scan_ws(s, 0);
    match scan_response_obj(s, i) {
        None => None,
        Some((x, j)) => {
            let t = crate::json::scan_ws(s, j);
            if t == s.len() {
                Some(x)
            } else {
                None
            }
        },
    }
}

/// Appends all the text of a parsed response — every `text` field across
/// all candidates and parts, in order — to `out`.
pub fn append_response_text(r: &ParsedResponse, out: &mut String)
    ensures
        final(out)@ == old(out)@ + response_text(r@),
{
    match &r.candidates {
        None => {
            proof {
                assert(out@ =~= old(out)@ + response_text(r@));
            }
        },
        Some(cands) => {
            let ghost cs = candidates_seq_view(cands@);
            let n = cands.len();
            let mut idx: usize = 0;
            while idx < n
                invariant
                    idx <= n == cands@.len(),
                    cs == candidates_seq_view(cands@),
                    out@ == old(out)@ + candidates_text(cs.take(idx as int)),
                decreases n - idx,
            {
                let ghost before = out@;
                match &cands[idx].content {
                    None => {},
                    Some(content) => match &content.parts {
                        None => {},
                        Some(parts) => {
                            let ghost ps = parts_seq_view(parts@);
                            let m = parts.len();
                            let mut pdx: usize = 0;
                            while pdx < m
                                invariant
                                    pdx <= m == parts@.len(),
                                    ps == parts_seq_view(parts@),
                                    out@ == before + parts_text(ps.take(pdx as int)),
                                decreases m - pdx,
                            {
                                match &parts[pdx].text {
                                    None => {},
                                    Some(t) => {
                                        out.append(t.as_str());
                                    },
                                }
                                proof {
                                    assert(ps.take(pdx as int + 1).drop_last() =~= ps.take(
                                        pdx as int,
                                    ));
                                    assert(ps.take(pdx as int + 1).last() == ps[pdx as int]);
                                }
                                pdx = pdx + 1;
                            }
                            proof {
                                assert(ps.take(m as int) =~= ps);
                            }
                        },
                    },
                }
                proof {
                    assert(out@ =~= before + candidate_text(cs[idx as int]));
                    assert(cs.take(idx as int + 1).drop_last() =~= cs.take(idx as int));
                    assert(cs.take(idx as int + 1).last() == cs[idx as int]);
                }
                idx = idx + 1;
            }
            proof {
                assert(cs.take(n as int) =~= cs);
            }
        },
    }
}

} // verus!
