use gemini_client::markers::{parse_citation, parse_file_download};

#[test]
fn citation_markers_parse_to_their_number() {
    assert_eq!(parse_citation("[^1]"), Some(1));
    assert_eq!(parse_citation("[^42]"), Some(42));
    assert_eq!(parse_citation("[^0]"), Some(0));
    assert_eq!(parse_citation("[^4294967295]"), Some(u32::MAX));
}

#[test]
fn citation_numbers_parse_as_the_standard_library_does() {
    // `str::parse::<u32>` accepts a leading plus sign and refuses
    // anything out of range.
    assert_eq!(parse_citation("[^+7]"), Some(7));
    assert_eq!(parse_citation("[^4294967296]"), None);
    assert_eq!(parse_citation("[^-1]"), None);
    assert_eq!(parse_citation("[^+]"), None);
}

#[test]
fn non_citations_are_rejected() {
    assert_eq!(parse_citation("[^]"), None);
    assert_eq!(parse_citation("[^1x]"), None);
    assert_eq!(parse_citation("[1]"), None);
    assert_eq!(parse_citation("^1]"), None);
    assert_eq!(parse_citation("[^1"), None);
    assert_eq!(parse_citation(""), None);
    assert_eq!(parse_citation("plain text"), None);
}

#[test]
fn file_markers_parse_to_their_three_fields() {
    assert_eq!(
        parse_file_download("[file:report.pdf|pdf|1024]"),
        Some(("report.pdf".to_string(), "pdf".to_string(), 1024))
    );
    assert_eq!(
        parse_file_download("[file:données.csv|csv|0]"),
        Some(("données.csv".to_string(), "csv".to_string(), 0))
    );
    assert_eq!(
        parse_file_download("[file:||0]"),
        Some((String::new(), String::new(), 0))
    );
    assert_eq!(
        parse_file_download("[file:a|b|+5]"),
        Some(("a".to_string(), "b".to_string(), 5))
    );
    assert_eq!(
        parse_file_download("[file:big.bin|bin|18446744073709551615]"),
        Some(("big.bin".to_string(), "bin".to_string(), u64::MAX))
    );
}

#[test]
fn non_file_markers_are_rejected() {
    assert_eq!(parse_file_download("[file:a|b]"), None);
    assert_eq!(parse_file_download("[file:a|b|c|d]"), None);
    assert_eq!(parse_file_download("[file:a|b|12x]"), None);
    assert_eq!(parse_file_download("[file:a|b|18446744073709551616]"), None);
    assert_eq!(parse_file_download("[file:a|b|]"), None);
    assert_eq!(parse_file_download("[file:]"), None);
    assert_eq!(parse_file_download("file:a|b|1]"), None);
    assert_eq!(parse_file_download("[file:a|b|1"), None);
    assert_eq!(parse_file_download(""), None);
}

#[test]
fn marker_parses_agree_with_standard_parses() {
    // The same strings through `str::parse`, as the original marker
    // grammar defines the number fields.
    for s in ["0", "7", "+7", "4294967295", "4294967296", "", "+", "1x"] {
        let marker = format!("[^{}]", s);
        assert_eq!(parse_citation(&marker), s.parse::<u32>().ok());
    }
    for s in ["0", "1024", "+5", "18446744073709551615", "18446744073709551616", "", "x"] {
        let marker = format!("[file:a|b|{}]", s);
        assert_eq!(
            parse_file_download(&marker).map(|(_, _, n)| n),
            s.parse::<u64>().ok()
        );
    }
}
