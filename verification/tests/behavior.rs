//! Scenario tests for the documented behavior: the null token, the quoting
//! predicate, deferred errors, jagged rows, round trips, and the agreement
//! between the eager parser and the streaming row reader.

use wsv::{
    are_equal, parse, parse_lazy, parse_with_col_count, ColumnAlignment, WSVErrorType, WSVToken,
    WSVTokenizer, WSVWriter,
};

fn s(v: &str) -> Option<String> {
    Some(v.to_string())
}

#[test]
fn bare_dash_parses_to_none() {
    assert_eq!(vec![vec![None::<String>]], parse("-").unwrap());
}

#[test]
fn quoted_dash_parses_to_value() {
    assert_eq!(vec![vec![s("-")]], parse("\"-\"").unwrap());
}

#[test]
fn literal_dash_value_round_trips() {
    let doc = vec![vec![s("-"), None]];
    let written = WSVWriter::new(doc.clone()).to_string();
    assert_eq!("\"-\" -", written);
    assert_eq!(doc, parse(&written).unwrap());
}

#[test]
fn deferred_error_after_bare_value() {
    let input = "abc\"";
    let mut tokenizer = WSVTokenizer::new(input);
    assert!(are_equal(
        Ok(WSVToken::Value("abc".to_string())),
        tokenizer.next().unwrap()
    ));
    let second = tokenizer.next().unwrap();
    match second {
        Err(err) => assert_eq!(
            WSVErrorType::InvalidDoubleQuoteAfterValue,
            err.err_type()
        ),
        Ok(_) => panic!("expected the deferred error on the second pull"),
    }
    assert!(tokenizer.next().is_none());
}

#[test]
fn deferred_error_after_quoted_value() {
    let input = "\"abc\"x";
    let mut tokenizer = WSVTokenizer::new(input);
    assert!(are_equal(
        Ok(WSVToken::Value("abc".to_string())),
        tokenizer.next().unwrap()
    ));
    let second = tokenizer.next().unwrap();
    match second {
        Err(err) => {
            assert_eq!(WSVErrorType::InvalidCharacterAfterString, err.err_type());
            assert_eq!(1, err.location().line());
            assert_eq!(6, err.location().col());
        },
        Ok(_) => panic!("expected the deferred error on the second pull"),
    }
    assert!(tokenizer.next().is_none());
}

#[test]
fn raw_line_feed_inside_quotes_is_rejected() {
    let err = parse("\"abc\ndef\"").unwrap_err();
    assert_eq!(WSVErrorType::StringNotClosed, err.err_type());
    assert_eq!(1, err.location().line());
}

#[test]
fn unterminated_quote_errors_at_end_of_input() {
    let err = parse("\"unterminated").unwrap_err();
    assert_eq!(WSVErrorType::StringNotClosed, err.err_type());
    assert_eq!(1, err.location().line());
    assert_eq!(14, err.location().col());
}

#[test]
fn broken_line_break_escape_is_rejected() {
    let err = parse("\"a\"/b\"").unwrap_err();
    assert_eq!(WSVErrorType::InvalidStringLineBreak, err.err_type());
}

#[test]
fn jagged_rows_preserved() {
    let doc = parse("1 2\n3\n").unwrap();
    assert_eq!(vec![vec![s("1"), s("2")], vec![s("3")]], doc);
    let written = WSVWriter::new(doc)
        .align_columns(ColumnAlignment::Left)
        .to_string();
    assert_eq!("1 2\n3", written);
}

#[test]
fn comment_only_line_contributes_no_row() {
    let doc = parse("a \"b c\" -\n# comment only\nd\n").unwrap();
    assert_eq!(vec![vec![s("a"), s("b c"), None], vec![s("d")]], doc);
}

#[test]
fn blank_line_is_an_empty_row() {
    let doc = parse("a\n\nb\n").unwrap();
    assert_eq!(vec![vec![s("a")], vec![], vec![s("b")]], doc);
}

#[test]
fn quoted_line_break_escape_joins_lines() {
    let doc = parse("\"line1\"/\"line2\"").unwrap();
    assert_eq!(vec![vec![s("line1\nline2")]], doc);
}

#[test]
fn packed_row_with_null_and_quoted_value() {
    let written = WSVWriter::new(vec![vec![None, s("x y")]])
        .align_columns(ColumnAlignment::Packed)
        .to_string();
    assert_eq!("- \"x y\"", written);
}

#[test]
fn quoting_predicate_on_specials() {
    assert_eq!(
        "\"a b\" \"a\"\"b\" \"a#b\" \"a\"/\"b\" plain",
        WSVWriter::new(vec![vec![s("a b"), s("a\"b"), s("a#b"), s("a\nb"), s("plain")]])
            .to_string()
    );
}

#[test]
fn packed_round_trip_with_escapes() {
    let doc = vec![
        vec![s("plain"), None, s("needs quoting"), s("em\"bedded")],
        vec![s("line\nbreak")],
        vec![],
        vec![s("#comment-like"), s("-dash"), s("-")],
    ];
    let written = WSVWriter::new(doc.clone()).to_string();
    assert_eq!(doc, parse(&written).unwrap());
    let rewritten = WSVWriter::new(parse(&written).unwrap()).to_string();
    assert_eq!(written, rewritten);
}

#[test]
fn aligned_round_trip() {
    let doc = vec![
        vec![s("a"), s("longer value here"), None],
        vec![s("bb")],
        vec![None, s("x"), s("yy"), s("z z")],
    ];
    for make in [
        || ColumnAlignment::Left,
        || ColumnAlignment::Right,
        || ColumnAlignment::Packed,
    ] {
        let written = WSVWriter::new(doc.clone()).align_columns(make()).to_string();
        let reparsed = parse(&written).unwrap();
        assert_eq!(doc, reparsed, "alignment must not change the document");
        let rewritten = WSVWriter::new(reparsed).align_columns(make()).to_string();
        assert_eq!(written, rewritten, "re-serializing parsed output reproduces it");
    }
}

#[test]
fn right_alignment_pads_on_the_left() {
    let written = WSVWriter::new(vec![vec![s("a"), s("bb")], vec![s("ccc"), s("d")]])
        .align_columns(ColumnAlignment::Right)
        .to_string();
    assert_eq!("  a bb\nccc  d", written);
}

#[test]
fn left_alignment_pads_on_the_right() {
    let written = WSVWriter::new(vec![vec![s("a"), s("bb")], vec![s("ccc"), s("d")]])
        .align_columns(ColumnAlignment::Left)
        .to_string();
    assert_eq!("a   bb\nccc d ", written);
}

#[test]
fn streaming_and_eager_agree_without_comments() {
    let input = "1 2 3\n\n\"a b\" - c\nlast";
    let eager = parse(input).unwrap();
    let mut it = parse_lazy(input.chars().collect());
    let mut lazy_rows: Vec<Vec<Option<String>>> = Vec::new();
    while let Some(row) = it.next() {
        lazy_rows.push(row.unwrap());
    }
    assert_eq!(eager, lazy_rows);
}

#[test]
fn streaming_delivers_partial_row_before_error() {
    let input = "a b\nc d \"oops";
    let mut it = parse_lazy(input.chars().collect());
    assert_eq!(vec![s("a"), s("b")], it.next().unwrap().unwrap());
    assert_eq!(vec![s("c"), s("d")], it.next().unwrap().unwrap());
    let err = it.next().unwrap().unwrap_err();
    assert_eq!(WSVErrorType::StringNotClosed, err.err_type());
    assert!(it.next().is_none());
}

#[test]
fn streaming_yields_empty_row_for_comment_only_line() {
    let input = "# just a comment\nvalue";
    let mut it = parse_lazy(input.chars().collect());
    assert_eq!(Vec::<Option<String>>::new(), it.next().unwrap().unwrap());
    assert_eq!(vec![s("value")], it.next().unwrap().unwrap());
    assert!(it.next().is_none());
}

#[test]
fn writer_stream_matches_to_string() {
    let doc = vec![vec![s("a b"), None], vec![s("x")]];
    let expected = WSVWriter::new(doc.clone()).to_string();
    let mut writer = WSVWriter::new(doc);
    let mut streamed = String::new();
    while let Some(ch) = writer.next() {
        streamed.push(ch);
    }
    assert_eq!(expected, streamed);
}

#[test]
fn empty_input_parses_to_no_rows() {
    assert_eq!(Vec::<Vec<Option<String>>>::new(), parse("").unwrap());
    assert_eq!(Vec::<Vec<Option<String>>>::new(), parse(" \t \u{3000} ").unwrap());
}

#[test]
fn whitespace_set_separates_values() {
    let doc = parse("a\u{00A0}b\u{3000}c\td").unwrap();
    assert_eq!(vec![vec![s("a"), s("b"), s("c"), s("d")]], doc);
}

#[test]
fn parse_with_col_count_matches_parse() {
    let input = "1 2 3\n4 5";
    assert_eq!(parse(input).unwrap(), parse_with_col_count(input, 3).unwrap());
}

#[test]
fn location_starts_at_line_one_column_one() {
    let loc = wsv::Location::default();
    assert_eq!(1, loc.line());
    assert_eq!(1, loc.col());
}

#[test]
fn are_equal_distinguishes_tokens() {
    assert!(!are_equal(
        Ok(WSVToken::Value("a".to_string())),
        Ok(WSVToken::Value("b".to_string()))
    ));
    assert!(!are_equal(Ok(WSVToken::Null), Ok(WSVToken::LF)));
    assert!(are_equal(Ok(WSVToken::Null), Ok(WSVToken::Null)));
}

#[test]
fn error_message_names_location_and_kind() {
    let err = parse("\"unterminated").unwrap_err();
    assert_eq!("(line: 1, column: 14) String Not Closed", err.message());
}
