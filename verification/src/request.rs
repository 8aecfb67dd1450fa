//! Building the JSON request for the generation endpoint.
//!
//! The endpoint takes `{"contents":[{"role":...,"parts":[{"text":...}]}]}`.
//! A single prompt becomes one `user` message; a conversation becomes one
//! entry per message, with the assistant's turns under the `model` role.
//! Prompt text is JSON-escaped exactly as a JSON serialiser writes a
//! string: quote, backslash and the control characters escaped, and
//! everything else carried as its UTF-8 encoding.

use vstd::prelude::*;
use vstd::string::StrSliceExecFns;
use vstd::utf8::{encode_utf8, encode_scalar, char_is_scalar};
use crate::encoding::push_scalar;

verus! {

/// Who spoke a message of the conversation.
#[derive(Clone, Debug, PartialEq)]
pub enum MessageRole {
    User,
    Assistant,
}

/// The hexadecimal digit byte for one value below sixteen, lower case.
pub open spec fn hex_byte(n: u32) -> u8
    recommends
        n < 16,
{
    if n < 10 {
        (0x30 + n) as u8
    } else {
        (0x57 + n) as u8
    }
}

/// The bytes a JSON serialiser writes for one character of a string.
pub open spec fn escape_char_bytes(c: char) -> Seq<u8> {
    let u = c as u32;
    if c == '"' {
        seq![0x5c, 0x22]
    } else if c == '\\' {
        seq![0x5c, 0x5c]
    } else if u == 0x08 {
        seq![0x5c, 0x62]
    } else if u == 0x09 {
        seq![0x5c, 0x74]
    } else if u == 0x0a {
        seq![0x5c, 0x6e]
    } else if u == 0x0c {
        seq![0x5c, 0x66]
    } else if u == 0x0d {
        seq![0x5c, 0x72]
    } else if u < 0x20 {
        seq![0x5c, 0x75, 0x30, 0x30, hex_byte(u >> 4), hex_byte(u & 0xf)]
    } else {
        encode_scalar(u)
    }
}

/// The bytes a JSON serialiser writes for a whole string's content.
pub open spec fn escape_bytes(s: Seq<char>) -> Seq<u8>
    decreases s.len(),
{
    if s.len() == 0 {
        Seq::empty()
    } else {
        escape_bytes(s.drop_last()) + escape_char_bytes(s.last())
    }
}

/// The request body for a single prompt, sent as one `user` message.
pub open spec fn request_body_bytes(prompt: Seq<char>) -> Seq<u8> {
    encode_utf8("{\"contents\":[{\"role\":\"user\",\"parts\":[{\"text\":\""@) + escape_bytes(
        prompt,
    ) + encode_utf8("\"}]}]}"@)
}

/// The bytes of one conversation entry: the assistant's turns travel
/// under the `model` role.
pub open spec fn message_bytes(role: MessageRole, text: Seq<char>) -> Seq<u8> {
    match role {
        MessageRole::User => encode_utf8("{\"role\":\"user\",\"parts\":[{\"text\":\""@)
            + escape_bytes(text) + encode_utf8("\"}]}"@),
        MessageRole::Assistant => encode_utf8("{\"role\":\"model\",\"parts\":[{\"text\":\""@)
            + escape_bytes(text) + encode_utf8("\"}]}"@),
    }
}

/// The message texts of a conversation, by view.
pub open spec fn messages_view(msgs: Seq<(MessageRole, String)>) -> Seq<(MessageRole, Seq<char>)> {
    Seq::new(msgs.len(), |k: int| (msgs[k].0, msgs[k].1@))
}

/// The comma-separated conversation entries.
pub open spec fn messages_bytes(msgs: Seq<(MessageRole, Seq<char>)>) -> Seq<u8>
    decreases msgs.len(),
{
    if msgs.len() == 0 {
        Seq::empty()
    } else if msgs.len() == 1 {
        message_bytes(msgs[0].0, msgs[0].1)
    } else {
        messages_bytes(msgs.drop_last()) + seq![0x2c] + message_bytes(
            msgs.last().0,
            msgs.last().1,
        )
    }
}

/// The request body for a whole conversation, one entry per message, in
/// order.
pub open spec fn conversation_body_bytes(msgs: Seq<(MessageRole, Seq<char>)>) -> Seq<u8> {
    encode_utf8("{\"contents\":["@) + messages_bytes(msgs) + encode_utf8("]}"@)
}

/// Appends the JSON string escaping of `s` to `out`.
fn append_escaped(s: &str, out: &mut Vec<u8>)
    ensures
        final(out)@ == old(out)@ + escape_bytes(s@),
{
    let n = s.unicode_len();
    let mut i: usize = 0;
    proof {
        assert(out@ =~= old(out)@ + escape_bytes(s@.take(0)));
    }
    while i < n
        invariant
            i <= n == s@.len(),
            out@ == old(out)@ + escape_bytes(s@.take(i as int)),
        decreases n - i,
    {
        let c = s.get_char(i);
        let u = c as u32;
        if c == '"' {
            out.push(0x5c);
            out.push(0x22);
        } else if c == '\\' {
            out.push(0x5c);
            out.push(0x5c);
        } else if u == 0x08 {
            out.push(0x5c);
            out.push(0x62);
        } else if u == 0x09 {
            out.push(0x5c);
            out.push(0x74);
        } else if u == 0x0a {
            out.push(0x5c);
            out.push(0x6e);
        } else if u == 0x0c {
            out.push(0x5c);
            out.push(0x66);
        } else if u == 0x0d {
            out.push(0x5c);
            out.push(0x72);
        } else if u < 0x20 {
            out.push(0x5c);
            out.push(0x75);
            out.push(0x30);
            out.push(0x30);
            let hi = u >> 4;
            let lo = u & 0xf;
            proof {
                assert(u >> 4 < 16 && (u & 0xf) < 16) by (bit_vector)
                    requires
                        u < 0x20,
                ;
            }
            out.push(if hi < 10 { (0x30 + hi) as u8 } else { (0x57 + hi) as u8 });
            out.push(if lo < 10 { (0x30 + lo) as u8 } else { (0x57 + lo) as u8 });
        } else {
            proof {
                char_is_scalar(c);
            }
            push_scalar(out, u);
        }
        proof {
            assert(s@.take(i as int + 1).drop_last() =~= s@.take(i as int));
            assert(s@.take(i as int + 1).last() == s@[i as int]);
            assert(out@ =~= old(out)@ + escape_bytes(s@.take(i as int + 1)));
        }
        i = i + 1;
    }
    proof {
        assert(s@.take(n as int) =~= s@);
    }
}

/// Builds the request body for one prompt: the prompt becomes the text
/// of a single `user` message.
pub fn build_request_body(prompt: &str) -> (r: Vec<u8>)
    ensures
        r@ == request_body_bytes(prompt@),
{
    let mut out: Vec<u8> = Vec::new();
    out.extend_from_slice("{\"contents\":[{\"role\":\"user\",\"parts\":[{\"text\":\"".as_bytes());
    append_escaped(prompt, &mut out);
    out.extend_from_slice("\"}]}]}".as_bytes());
    proof {
        assert(out@ =~= request_body_bytes(prompt@));
    }
    out
}

/// Builds the request body for a conversation: one entry per message, in
/// order, the assistant's turns under the `model` role.
#[verifier::rlimit(60)]
pub fn build_conversation_body(messages: &Vec<(MessageRole, String)>) -> (r: Vec<u8>)
    ensures
        r@ == conversation_body_bytes(messages_view(messages@)),
{
    let ghost mv = messages_view(messages@);
    let mut out: Vec<u8> = Vec::new();
    out.extend_from_slice("{\"contents\":[".as_bytes());
    let ghost base = out@;
    let n = messages.len();
    let mut i: usize = 0;
    proof {
        assert(out@ =~= base + messages_bytes(mv.take(0)));
    }
    while i < n
        invariant
            i <= n == messages@.len(),
            mv == messages_view(messages@),
            base == encode_utf8("{\"contents\":["@),
            out@ == base + messages_bytes(mv.take(i as int)),
        decreases n - i,
    {
        if i > 0 {
            out.push(0x2c);
        }
        match &messages[i].0 {
            MessageRole::User => {
                out.extend_from_slice("{\"role\":\"user\",\"parts\":[{\"text\":\"".as_bytes());
            },
            MessageRole::Assistant => {
                out.extend_from_slice("{\"role\":\"model\",\"parts\":[{\"text\":\"".as_bytes());
            },
        }
        append_escaped(messages[i].1.as_str(), &mut out);
        out.extend_from_slice("\"}]}".as_bytes());
        proof {
            assert(mv.take(i as int + 1).drop_last() =~= mv.take(i as int));
            assert(mv.take(i as int + 1).last() == mv[i as int]);
            assert(out@ =~= base + messages_bytes(mv.take(i as int + 1)));
        }
        i = i + 1;
    }
    out.extend_from_slice("]}".as_bytes());
    proof {
        assert(mv.take(n as int) =~= mv);
        assert(out@ =~= conversation_body_bytes(mv));
    }
    out
}

/// Builds the streaming endpoint's URL, with the credential as its query
/// parameter.
pub fn request_url(credential: &str) -> (r: String)
    ensures
        r@
            == "https://generativelanguage.googleapis.com/v1beta/models/gemini-flash-latest:streamGenerateContent"@
            + "?key="@ + credential@,
{
    let mut url = String::new();
    url.append(
        "https://generativelanguage.googleapis.com/v1beta/models/gemini-flash-latest:streamGenerateContent",
    );
    url.append("?key=");
    url.append(credential);
    url
}

} // verus!
