use gemini_client::cli::parse_args;

fn args_of(parts: &[&str]) -> Vec<String> {
    parts.iter().map(|p| p.to_string()).collect()
}

#[test]
fn leading_az_hands_the_rest_back_verbatim() {
    let r = parse_args(args_of(&["az", "vm", "list", "--output", "table"]));
    assert_eq!(
        r,
        Ok((None, None, Some(args_of(&["vm", "list", "--output", "table"]))))
    );
}

#[test]
fn bare_az_is_an_empty_command() {
    let r = parse_args(args_of(&["az"]));
    assert_eq!(r, Ok((None, None, Some(Vec::new()))));
}

#[test]
fn words_join_into_the_prompt() {
    let r = parse_args(args_of(&["hello", "world"]));
    assert_eq!(r, Ok((None, Some("hello world".to_string()), None)));
}

#[test]
fn key_flags_take_the_next_argument() {
    let r = parse_args(args_of(&["-k", "KEY", "hi"]));
    assert_eq!(r, Ok((Some("KEY".to_string()), Some("hi".to_string()), None)));
    let r = parse_args(args_of(&["--key", "KEY", "hi", "there"]));
    assert_eq!(
        r,
        Ok((Some("KEY".to_string()), Some("hi there".to_string()), None))
    );
}

#[test]
fn inline_key_carries_its_value() {
    let r = parse_args(args_of(&["--key=KEY", "ask", "me"]));
    assert_eq!(
        r,
        Ok((Some("KEY".to_string()), Some("ask me".to_string()), None))
    );
    let r = parse_args(args_of(&["--key=", "x"]));
    assert_eq!(r, Ok((Some(String::new()), Some("x".to_string()), None)));
}

#[test]
fn key_flags_anywhere_leave_the_prompt_intact() {
    let r = parse_args(args_of(&["say", "hi", "-k", "K"]));
    assert_eq!(r, Ok((Some("K".to_string()), Some("say hi".to_string()), None)));
}

#[test]
fn the_last_key_wins() {
    let r = parse_args(args_of(&["-k", "A", "--key=B", "x"]));
    assert_eq!(r, Ok((Some("B".to_string()), Some("x".to_string()), None)));
}

#[test]
fn a_key_flag_without_a_value_is_an_error() {
    assert_eq!(
        parse_args(args_of(&["-k"])),
        Err("Missing value for -k".to_string())
    );
    assert_eq!(
        parse_args(args_of(&["x", "--key"])),
        Err("Missing value for --key".to_string())
    );
}

#[test]
fn no_arguments_mean_no_prompt_and_no_command() {
    assert_eq!(parse_args(Vec::new()), Ok((None, None, None)));
}

#[test]
fn az_is_only_special_in_first_position() {
    let r = parse_args(args_of(&["x", "az"]));
    assert_eq!(r, Ok((None, Some("x az".to_string()), None)));
}
