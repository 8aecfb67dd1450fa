use gemini_client::reassembler::{assemble_chunks, Reassembler};

fn chunks_of(parts: &[&str]) -> Vec<Vec<u8>> {
    parts.iter().map(|p| p.as_bytes().to_vec()).collect()
}

#[test]
fn single_object_stream_concatenates_all_text() {
    let chunks = chunks_of(&[
        "[",
        "{\"candidates\":[{\"content\":{\"parts\":[{\"text\":\"Hel\"}]}}]},",
        "{\"candidates\":[{\"content\":{\"parts\":[{\"text\":\"lo\"}]}}]}",
        "]",
    ]);
    assert_eq!(assemble_chunks(&chunks), "Hello");
}

#[test]
fn invalid_utf8_chunk_contributes_nothing() {
    let mut chunks = chunks_of(&["{\"candidates\":[{\"content\":{\"parts\":[{\"text\":\"a\"}]}}]}"]);
    chunks.push(vec![0xff, 0xfe, 0x22]);
    chunks.extend(chunks_of(&[
        "{\"candidates\":[{\"content\":{\"parts\":[{\"text\":\"b\"}]}}]}",
    ]));
    assert_eq!(assemble_chunks(&chunks), "ab");
}

#[test]
fn punctuation_chunks_contribute_nothing() {
    let chunks = chunks_of(&["[", "]", ",", "  [  ", "\t,\n", " ] "]);
    assert_eq!(assemble_chunks(&chunks), "");
}

#[test]
fn object_split_across_two_chunks_is_dropped() {
    // A response object cut in half parses in neither chunk, so both
    // halves are dropped: the known reassembly gap, kept as-is.
    let chunks = chunks_of(&[
        "{\"candidates\":[{\"content\":",
        "{\"parts\":[{\"text\":\"X\"}]}}]}",
    ]);
    assert_eq!(assemble_chunks(&chunks), "");
}

#[test]
fn multiple_candidates_and_parts_in_order() {
    let chunks = chunks_of(&[
        "{\"candidates\":[{\"content\":{\"parts\":[{\"text\":\"a\"},{\"text\":\"b\"}]}},{\"content\":{\"parts\":[{\"text\":\"c\"}]}}]}",
    ]);
    assert_eq!(assemble_chunks(&chunks), "abc");
}

#[test]
fn unknown_fields_are_skipped() {
    let chunks = chunks_of(&[
        "{\"candidates\":[{\"content\":{\"parts\":[{\"text\":\"ok\",\"thought\":false}],\"role\":\"model\"},\"finishReason\":\"STOP\",\"index\":0}],\"usageMetadata\":{\"promptTokenCount\":7}}",
    ]);
    assert_eq!(assemble_chunks(&chunks), "ok");
}

#[test]
fn absent_and_null_levels_contribute_nothing() {
    let chunks = chunks_of(&[
        "{}",
        "{\"candidates\":null}",
        "{\"candidates\":[]}",
        "{\"candidates\":[{}]}",
        "{\"candidates\":[{\"content\":null}]}",
        "{\"candidates\":[{\"content\":{}}]}",
        "{\"candidates\":[{\"content\":{\"parts\":null}}]}",
        "{\"candidates\":[{\"content\":{\"parts\":[]}}]}",
        "{\"candidates\":[{\"content\":{\"parts\":[{}]}}]}",
        "{\"candidates\":[{\"content\":{\"parts\":[{\"text\":null}]}}]}",
    ]);
    assert_eq!(assemble_chunks(&chunks), "");
}

#[test]
fn escape_sequences_are_decoded() {
    let chunks = chunks_of(&[
        "{\"candidates\":[{\"content\":{\"parts\":[{\"text\":\"a\\nb\\t\\\"q\\\"\\\\\"}]}}]}",
    ]);
    assert_eq!(assemble_chunks(&chunks), "a\nb\t\"q\"\\");
}

#[test]
fn unicode_escapes_and_surrogate_pairs_are_decoded() {
    let chunks = chunks_of(&[
        "{\"candidates\":[{\"content\":{\"parts\":[{\"text\":\"\\u0048\\u00e9\\ud83d\\ude00\"}]}}]}",
    ]);
    assert_eq!(assemble_chunks(&chunks), "H\u{e9}\u{1f600}");
}

#[test]
fn raw_multibyte_text_passes_through() {
    let chunks = chunks_of(&[
        "{\"candidates\":[{\"content\":{\"parts\":[{\"text\":\"héllo wörld — 日本語\"}]}}]}",
    ]);
    assert_eq!(assemble_chunks(&chunks), "héllo wörld — 日本語");
}

#[test]
fn malformed_fragments_are_skipped_silently() {
    let chunks = chunks_of(&[
        "{\"candidates\":[{\"content\":{\"parts\":[{\"text\":\"keep\"}]}}]}",
        "{\"candidates\":",
        "not json at all",
        "{\"candidates\":[{\"content\":{\"parts\":[{\"text\":\"unterminated}",
        "{\"candidates\":[{\"content\":{\"parts\":[{\"text\":\"also\"}]}}]} trailing",
        "42",
    ]);
    assert_eq!(assemble_chunks(&chunks), "keep");
}

#[test]
fn wrong_types_and_duplicates_fail_the_parse() {
    let chunks = chunks_of(&[
        "{\"candidates\":7}",
        "{\"candidates\":[7]}",
        "{\"candidates\":[{\"content\":true}]}",
        "{\"candidates\":[{\"content\":{\"parts\":\"x\"}}]}",
        "{\"candidates\":[{\"content\":{\"parts\":[{\"text\":17}]}}]}",
        "{\"candidates\":[],\"candidates\":[]}",
    ]);
    assert_eq!(assemble_chunks(&chunks), "");
}

#[test]
fn array_punctuation_around_objects_is_stripped() {
    let chunks = chunks_of(&[
        "[{\"candidates\":[{\"content\":{\"parts\":[{\"text\":\"1\"}]}}]}",
        ",{\"candidates\":[{\"content\":{\"parts\":[{\"text\":\"2\"}]}}]}",
        "{\"candidates\":[{\"content\":{\"parts\":[{\"text\":\"3\"}]}}]}]",
    ]);
    assert_eq!(assemble_chunks(&chunks), "123");
}

#[test]
fn incremental_reassembler_matches_whole_stream() {
    let parts = [
        "[",
        "{\"candidates\":[{\"content\":{\"parts\":[{\"text\":\"one \"}]}}]},",
        "{\"candidates\":[{\"content\":{\"parts\":[{\"text\":\"two\"}]}}]}",
        "]",
    ];
    let mut acc = Reassembler::new();
    for p in parts.iter() {
        acc.push_chunk(p.as_bytes());
    }
    let direct = assemble_chunks(&chunks_of(&parts));
    assert_eq!(acc.into_text(), direct);
    assert_eq!(direct, "one two");
}

#[test]
fn empty_stream_yields_empty_text() {
    let chunks: Vec<Vec<u8>> = Vec::new();
    assert_eq!(assemble_chunks(&chunks), "");
}

#[test]
fn json_whitespace_inside_objects_is_accepted() {
    let chunks = chunks_of(&[
        " { \"candidates\" : [ { \"content\" : { \"parts\" : [ { \"text\" : \"spaced\" } ] } } ] } ",
    ]);
    assert_eq!(assemble_chunks(&chunks), "spaced");
}
