use gemini_client::response::{parse_response_bytes, Candidate, Content, ParsedResponse, Part};

#[test]
fn a_full_fragment_parses_to_its_structure() {
    let r = parse_response_bytes(
        "{\"candidates\":[{\"content\":{\"parts\":[{\"text\":\"hi\"}]}}]}".as_bytes(),
    );
    assert_eq!(
        r,
        Some(ParsedResponse {
            candidates: Some(vec![Candidate {
                content: Some(Content {
                    parts: Some(vec![Part { text: Some("hi".to_string()) }]),
                }),
            }]),
        })
    );
}

#[test]
fn absent_levels_parse_to_nothing_at_that_level() {
    assert_eq!(
        parse_response_bytes(b"{}"),
        Some(ParsedResponse { candidates: None })
    );
    assert_eq!(
        parse_response_bytes(b"{\"candidates\":null}"),
        Some(ParsedResponse { candidates: None })
    );
    assert_eq!(
        parse_response_bytes(b"{\"candidates\":[{}]}"),
        Some(ParsedResponse { candidates: Some(vec![Candidate { content: None }]) })
    );
}

#[test]
fn unknown_fields_do_not_disturb_the_parse() {
    let r = parse_response_bytes(
        "{\"modelVersion\":\"x\",\"candidates\":[{\"finishReason\":\"STOP\",\"content\":{\"parts\":[{\"text\":\"t\"}],\"role\":\"model\"}}],\"usageMetadata\":{\"n\":[1,2.5,true,null,\"s\",{\"k\":[]}]}}"
            .as_bytes(),
    );
    assert_eq!(
        r,
        Some(ParsedResponse {
            candidates: Some(vec![Candidate {
                content: Some(Content {
                    parts: Some(vec![Part { text: Some("t".to_string()) }]),
                }),
            }]),
        })
    );
}

#[test]
fn structural_mismatches_fail_the_parse() {
    assert_eq!(parse_response_bytes(b"{\"candidates\":\"x\"}"), None);
    assert_eq!(parse_response_bytes(b"[1,2]"), None);
    assert_eq!(parse_response_bytes(b"\"just a string\""), None);
    assert_eq!(parse_response_bytes(b"{\"candidates\":[null]}"), None);
    assert_eq!(parse_response_bytes(b"{} {}"), None);
    assert_eq!(parse_response_bytes(b""), None);
    assert_eq!(parse_response_bytes(b"{\"a\":01}"), None);
    assert_eq!(parse_response_bytes(b"{\"a\":1,}"), None);
}

#[test]
fn numbers_in_skipped_fields_follow_the_json_grammar() {
    assert!(parse_response_bytes(b"{\"a\":-1.5e+10}").is_some());
    assert!(parse_response_bytes(b"{\"a\":0.25}").is_some());
    assert!(parse_response_bytes(b"{\"a\":1e9}").is_some());
    assert!(parse_response_bytes(b"{\"a\":.5}").is_none());
    assert!(parse_response_bytes(b"{\"a\":1.}").is_none());
    assert!(parse_response_bytes(b"{\"a\":-}").is_none());
}
