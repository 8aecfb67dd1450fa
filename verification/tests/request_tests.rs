use gemini_client::request::{
    build_conversation_body, build_request_body, request_url, MessageRole,
};

#[test]
fn single_prompt_body_is_exact() {
    let body = build_request_body("Hello");
    assert_eq!(
        String::from_utf8(body).unwrap(),
        "{\"contents\":[{\"role\":\"user\",\"parts\":[{\"text\":\"Hello\"}]}]}"
    );
}

#[test]
fn prompt_text_is_json_escaped() {
    let body = build_request_body("a\"b\\c\nd\te\u{08}f\u{0c}g\rh\u{1f}i");
    assert_eq!(
        String::from_utf8(body).unwrap(),
        "{\"contents\":[{\"role\":\"user\",\"parts\":[{\"text\":\"a\\\"b\\\\c\\nd\\te\\bf\\fg\\rh\\u001fi\"}]}]}"
    );
}

#[test]
fn non_ascii_prompt_text_is_carried_as_utf8() {
    let body = build_request_body("héllo \u{1f600}");
    assert_eq!(
        String::from_utf8(body).unwrap(),
        "{\"contents\":[{\"role\":\"user\",\"parts\":[{\"text\":\"héllo \u{1f600}\"}]}]}"
    );
}

#[test]
fn empty_prompt_is_accepted() {
    let body = build_request_body("");
    assert_eq!(
        String::from_utf8(body).unwrap(),
        "{\"contents\":[{\"role\":\"user\",\"parts\":[{\"text\":\"\"}]}]}"
    );
}

#[test]
fn conversation_body_maps_roles_in_order() {
    let messages = vec![
        (MessageRole::User, "My name is TestUser.".to_string()),
        (MessageRole::Assistant, "Noted.".to_string()),
        (MessageRole::User, "What is my name?".to_string()),
    ];
    let body = build_conversation_body(&messages);
    let expected = "{\"contents\":[\
{\"role\":\"user\",\"parts\":[{\"text\":\"My name is TestUser.\"}]},\
{\"role\":\"model\",\"parts\":[{\"text\":\"Noted.\"}]},\
{\"role\":\"user\",\"parts\":[{\"text\":\"What is my name?\"}]}\
]}";
    assert_eq!(String::from_utf8(body).unwrap(), expected);
}

#[test]
fn empty_conversation_is_an_empty_list() {
    let messages: Vec<(MessageRole, String)> = Vec::new();
    let body = build_conversation_body(&messages);
    assert_eq!(String::from_utf8(body).unwrap(), "{\"contents\":[]}");
}

#[test]
fn url_carries_the_credential_as_query_parameter() {
    let url = request_url("SECRET-REDACTED");
    assert_eq!(
        url,
        "https://generativelanguage.googleapis.com/v1beta/models/gemini-flash-latest:streamGenerateContent?key=SECRET-REDACTED"
    );
}
