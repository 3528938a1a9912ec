use fast_file_tracker::literal::{build_insert_string, parse_row_literal};
use fast_file_tracker::text::chars_of;

#[test]
fn a_plain_path_is_written_between_quotes() {
    assert_eq!(
        build_insert_string(&0xE4C1_91D0_91BD_8853, "/root/a.txt"),
        "('e4c191d091bd8853', '/root/a.txt')"
    );
}

#[test]
fn the_fingerprint_is_padded_with_zeros() {
    assert_eq!(build_insert_string(&255, "b.bin"), "('00000000000000ff', 'b.bin')");
}

#[test]
fn a_single_quote_in_a_path_is_doubled() {
    assert_eq!(
        build_insert_string(&1, "it's"),
        "('0000000000000001', 'it''s')"
    );
    assert_eq!(build_insert_string(&1, "'"), "('0000000000000001', '''')");
    assert_eq!(
        build_insert_string(&1, "a')"),
        "('0000000000000001', 'a'')')"
    );
}

#[test]
fn an_empty_path_gives_an_empty_text() {
    assert_eq!(build_insert_string(&0, ""), "('0000000000000000', '')");
}

#[test]
fn a_literal_reads_back_as_its_pair() {
    let row = parse_row_literal("('e4c191d091bd8853', '/root/a.txt')");
    assert_eq!(
        row,
        Some(("e4c191d091bd8853".to_string(), "/root/a.txt".to_string()))
    );
}

#[test]
fn building_then_parsing_gives_the_pair_back() {
    let paths = [
        "",
        "a",
        "'",
        "''",
        "')",
        "', '",
        "a'b'c",
        "/tmp/.hidden_dir/secret",
        "dir with spaces/\u{e9}t\u{e9}.txt",
        "back\\slash \"double\" \n newline",
        "('0000000000000000', 'nested')",
    ];
    for fingerprint in [0u64, 1, 0xEF46_DB37_51D8_E999, u64::MAX] {
        for path in paths {
            let literal = build_insert_string(&fingerprint, path);
            assert_eq!(
                parse_row_literal(&literal),
                Some((format!("{:016x}", fingerprint), path.to_string()))
            );
        }
    }
}

#[test]
fn text_that_is_no_literal_is_refused() {
    let refused = [
        "",
        "()",
        "('0000000000000000', 'a'",
        "('0000000000000000', 'a') ",
        "('0000000000000000','a')",
        "('000000000000000', 'a')",
        "('00000000000000000', 'a')",
        "('000000000000000G', 'a')",
        "('000000000000000F', 'a')",
        "('0000000000000000', 'it's')",
        "('0000000000000000', 'a'')",
        "(\"0000000000000000\", \"a\")",
        "['0000000000000000', 'a')",
        "('0000000000000000', 'a');",
    ];
    for text in refused {
        assert_eq!(parse_row_literal(text), None, "{:?}", text);
    }
}

#[test]
fn characters_come_out_in_order() {
    assert_eq!(chars_of(""), Vec::<char>::new());
    assert_eq!(chars_of("a'\u{e9}"), vec!['a', '\'', '\u{e9}']);
}
