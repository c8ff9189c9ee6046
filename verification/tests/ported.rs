//! The test suite of the codec: reading, writing, tokenizing, escapes,
//! error detection and locations, and jagged documents.

use wsv::{
    are_equal, owned_are_equal, parse, parse_lazy, ColumnAlignment, Location, OwnedWSVToken,
    WSVError, WSVErrorType, WSVLazyTokenizer, WSVToken, WSVTokenizer, WSVWriter,
};

fn stenway_table() -> &'static str {
    "a U+0061 61 0061 \"Latin Small Letter A\" \"\"/\"\"\"\"\"\"\n~ U+007E 7E 007E Tilde\n¬• U+00A5 C2_A5 00A5 \"Yen Sign\"\n¬ª U+00BB C2_BB 00BB \"Right-Pointing Double Angle Quotation Mark\"\n¬Ω U+00BD C2_BD 00BD \"Vulgar Fraction One Half\"\n¬ø U+00BF C2_BF 00BF \"Inverted#Question Mark\"\n√ü U+00DF C3_9F 00DF \"Latin Small Letter Sharp S\"\n√§ U+00E4 C3_A4 00E4 \"Latin Small Letter A with Diaeresis\"\n√Ø U+00EF C3_AF 00EF \"Latin Small Letter I with Diaeresis\"\n≈ì U+0153 C5_93 0153 \"Latin Small Ligature Oe\"\n‚Ç¨ U+20AC E2_82_AC 20AC \"Euro Sign\"\nÊù± U+6771 E6_9D_B1 6771 \"CJK Unified Ideograph-6771\"\nùÑû U+1D11E F0_9D_84_9E D834_DD1E \"Musical Symbol G Clef\"\n†Äá U+20007 F0_A0_80_87 D840_DC07 \"CJK Unified Ideograph-20007\"\n- hyphen qwro-qweb -dasbe \"A hyphen character - represents null\"\n"
}

fn assert_matches_expected(values: Vec<Vec<Option<String>>>, expected: &[Vec<&str>]) {
    assert_eq!(expected.len(), values.len(), "Line numbers should match");
    for (expected_line, actual_line) in expected.iter().zip(values.into_iter()) {
        assert_eq!(
            expected_line.len(),
            actual_line.len(),
            "Value counts should match"
        );
        for (expected_value, actual_value) in expected_line.iter().zip(actual_line.into_iter()) {
            if *expected_value == "-" {
                assert_eq!(None, actual_value, "'-' should parse to None");
            } else {
                let actual_value =
                    actual_value.expect("actual value should parse to Some() if expected is not '-'");
                assert_eq!(*expected_value, actual_value, "string values should match");
            }
        }
    }
}

fn expected_table() -> Vec<Vec<&'static str>> {
    vec![
        vec!["a", "U+0061", "61", "0061", "Latin Small Letter A", "\n\"\""],
        vec!["~", "U+007E", "7E", "007E", "Tilde"],
        vec!["¬•", "U+00A5", "C2_A5", "00A5", "Yen Sign"],
        vec!["¬ª", "U+00BB", "C2_BB", "00BB", "Right-Pointing Double Angle Quotation Mark"],
        vec!["¬Ω", "U+00BD", "C2_BD", "00BD", "Vulgar Fraction One Half"],
        vec!["¬ø", "U+00BF", "C2_BF", "00BF", "Inverted#Question Mark"],
        vec!["√ü", "U+00DF", "C3_9F", "00DF", "Latin Small Letter Sharp S"],
        vec!["√§", "U+00E4", "C3_A4", "00E4", "Latin Small Letter A with Diaeresis"],
        vec!["√Ø", "U+00EF", "C3_AF", "00EF", "Latin Small Letter I with Diaeresis"],
        vec!["≈ì", "U+0153", "C5_93", "0153", "Latin Small Ligature Oe"],
        vec!["‚Ç¨", "U+20AC", "E2_82_AC", "20AC", "Euro Sign"],
        vec!["Êù±", "U+6771", "E6_9D_B1", "6771", "CJK Unified Ideograph-6771"],
        vec!["ùÑû", "U+1D11E", "F0_9D_84_9E", "D834_DD1E", "Musical Symbol G Clef"],
        vec!["†Äá", "U+20007", "F0_A0_80_87", "D840_DC07", "CJK Unified Ideograph-20007"],
        vec!["-", "hyphen", "qwro-qweb", "-dasbe", "A hyphen character - represents null"],
    ]
}

#[test]
fn read_and_write() {
    let str = stenway_table();
    let result = parse(str).unwrap();

    let result_str = WSVWriter::new(result)
        .align_columns(ColumnAlignment::Packed)
        .to_string();

    println!("{}", result_str);
}

#[test]
fn read_and_write_lazy() {
    let str = r#"a 	U+0061    61            0061        "Latin Small Letter A"
~ 	U+007E    7E            007E        Tilde
¬• 	U+00A5    C2_A5         00A5        "Yen Sign"
¬ª 	U+00BB    C2_BB         00BB        "Right-Pointing Double Angle Quotation Mark"
¬Ω 	U+00BD    C2_BD         00BD        "Vulgar Fraction One Half"
¬ø 	U+00BF    C2_BF         00BF        "Inverted#Question Mark" # This is a comment
√ü 	U+00DF    C3_9F         00DF        "Latin Small Letter Sharp S"
√§ 	U+00E4    C3_A4         00E4        "Latin Small Letter A with Diaeresis"
√Ø 	U+00EF    C3_AF         00EF        "Latin Small Letter I with Diaeresis"
≈ì 	U+0153    C5_93         0153        "Latin Small Ligature Oe"
‚Ç¨ 	U+20AC    E2_82_AC      20AC        "Euro Sign"
Êù± 	U+6771    E6_9D_B1      6771        "CJK Unified Ideograph-6771"
ùÑû 	U+1D11E   F0_9D_84_9E   D834_DD1E   "Musical Symbol G Clef"
†Äá 	U+20007   F0_A0_80_87   D840_DC07   "CJK Unified Ideograph-20007"
-   hyphen    qwro-qweb     -dasbe      "A hyphen character - represents null""#;
    let mut result = parse_lazy(str.chars().collect());

    let mut rows: Vec<Vec<Option<String>>> = Vec::new();
    while let Some(line) = result.next() {
        let row: Vec<Option<String>> = line
            .unwrap()
            .into_iter()
            .map(|value| {
                let mut prefix = "-".to_string();
                prefix.push_str(&value.unwrap_or("-".to_string()));
                Some(prefix)
            })
            .collect();
        rows.push(row);
    }

    let result_str = WSVWriter::new(rows)
        .align_columns(ColumnAlignment::Packed)
        .to_string();

    println!("{}", result_str);
}

#[test]
fn e2e_test() {
    let str = stenway_table();
    let result = parse(str);
    assert_matches_expected(result.expect("Should not have error"), &expected_table());

    let parsed = parse(str).unwrap();
    let written = WSVWriter::new(parsed).to_string();
    println!("Writer output: {}", written);
    let reparsed = parse(&written);
    println!("Reparsed: {:?}", reparsed);
    assert_matches_expected(reparsed.expect("Should not have error"), &expected_table());
}

#[test]
fn e2e_test_lazy() {
    let str = stenway_table();
    let mut it = parse_lazy(str.chars().collect());
    let mut result: Vec<Vec<Option<String>>> = Vec::new();
    while let Some(line) = it.next() {
        result.push(line.unwrap());
    }
    assert_matches_expected(result, &expected_table());

    let parsed = parse(str).unwrap();
    let written = WSVWriter::new(parsed).to_string();
    let mut it = parse_lazy(written.chars().collect());
    let mut reparsed: Vec<Vec<Option<String>>> = Vec::new();
    while let Some(line) = it.next() {
        reparsed.push(line.unwrap());
    }
    assert_matches_expected(reparsed, &expected_table());
}

#[test]
fn in_and_out_with_cows() {
    let str = stenway_table();

    let values = parse(str).unwrap_or_else(|err| panic!("{:?}", err));
    let output = WSVWriter::new(values)
        .align_columns(ColumnAlignment::Right)
        .to_string();

    println!("{}", output);
}

#[test]
fn writing_strings() {
    let values = vec![vec![None, Some("test".to_string())]];

    let output = WSVWriter::new(values)
        .align_columns(ColumnAlignment::Packed)
        .to_string();

    println!("{}", output);
}

#[test]
fn tokenizes_strings_correctly() {
    let input = "\"this is a string\"";
    let mut tokenizer = WSVTokenizer::new(input);
    assert!(are_equal(
        Ok(WSVToken::Value("this is a string".to_string())),
        tokenizer.next().unwrap()
    ));
    assert!(tokenizer.next().is_none());
}

#[test]
fn tokenizes_string_and_immediate_comment_correctly() {
    let input = "somekindofvalue#thenacomment";
    let mut tokenizer = WSVTokenizer::new(input);
    assert!(are_equal(
        Ok(WSVToken::Value("somekindofvalue".to_string())),
        tokenizer.next().unwrap()
    ));
    assert!(are_equal(
        Ok(WSVToken::Comment("thenacomment".to_string())),
        tokenizer.next().unwrap()
    ));
}

#[test]
fn tokenizes_string_and_immediate_comment_correctly_lazily() {
    let input = "somekindofvalue#thenacomment";
    let mut tokenizer = WSVLazyTokenizer::new(input.chars().collect());
    assert!(owned_are_equal(
        Ok(OwnedWSVToken::Value("somekindofvalue".to_string())),
        tokenizer.next().unwrap()
    ));
    assert!(owned_are_equal(
        Ok(OwnedWSVToken::Comment("thenacomment".to_string())),
        tokenizer.next().unwrap()
    ));
}

#[test]
fn catches_invalid_line_breaks() {
    let input = "\"this is a string with an invalid \"/ line break.\"";
    let mut tokenizer = WSVTokenizer::new(input);
    if let Err(err) = tokenizer.next().unwrap() {
        if let WSVErrorType::InvalidStringLineBreak = err.err_type() {
            assert!(tokenizer.next().is_none());
            return;
        }
    }
    panic!("Expected to find an InvalidStringLineBreak error");
}

#[test]
fn doesnt_err_on_false_positive_line_breaks() {
    let input = "\"string \"\"/\"";
    let mut tokenizer = WSVTokenizer::new(input);
    let token = tokenizer.next().unwrap();
    assert!(are_equal(
        Ok(WSVToken::Value("string \"/".to_string())),
        token
    ));
    assert!(tokenizer.next().is_none());
}

#[test]
fn escapes_quotes_correctly() {
    let input = "\"\"\"\"\"\"\"\"";
    let mut tokenizer = WSVTokenizer::new(input);
    assert!(are_equal(
        Ok(WSVToken::Value("\"\"\"".to_string())),
        tokenizer.next().unwrap()
    ));
    assert!(tokenizer.next().is_none());
}

#[test]
fn escapes_new_lines_correctly() {
    let input = "\"\"/\"\"/\"\"/\"\"";
    let mut tokenizer = WSVTokenizer::new(input);
    let token = tokenizer.next().unwrap();
    println!("{:?}", token);
    assert!(are_equal(
        Ok(WSVToken::Value("\n\n\n".to_string())),
        token
    ));
}

#[test]
fn parses_quoted_string_and_immediate_comment_correctly() {
    let input = "\"somekindofvalue\"#thenacomment";
    let mut tokenizer = WSVTokenizer::new(input);
    assert!(are_equal(
        Ok(WSVToken::Value("somekindofvalue".to_string())),
        tokenizer.next().unwrap()
    ));
    assert!(are_equal(
        Ok(WSVToken::Comment("thenacomment".to_string())),
        tokenizer.next().unwrap()
    ));
}

#[test]
fn catches_unclosed_string() {
    let input = "\"this is an unclosed string";
    let mut tokenizer = WSVTokenizer::new(input);
    assert!(are_equal(
        Err(WSVError::new(
            WSVErrorType::StringNotClosed,
            Location::default()
        )),
        tokenizer.next().unwrap()
    ));
    assert!(tokenizer.next().is_none());
}

#[test]
fn atrocious_wsv() {
    let input = "   a\t\tb  \n\n# only a comment\n\"quoted \"\"x\"\"\" - end#note\n\"a\"/\"b\" -\n- - -";
    let result = parse(input);
    println!("{:?}", result.unwrap());
}

#[test]
fn write_really_large_file() {
    let mut values: Vec<Vec<Option<String>>> = Vec::new();
    for _ in 0..100000u32 {
        values.push((0..10).map(|val| Some(val.to_string())).collect());
    }
    let mut writer = WSVWriter::new(values);
    while let Some(ch) = writer.next() {
        println!("{}", ch);
        // This is so my computer doesn't fry when running unit tests.
        break;
    }
}

#[test]
fn lazy_parse_write_example() {
    // pretend that this input is some iterator over
    // all the characters in a 300 Gigabyte file.
    let input = String::new();
    let chars: Vec<char> = input.chars().collect();

    let mut lines = parse_lazy(chars);
    let mut summed: Vec<Vec<Option<String>>> = Vec::new();
    while let Some(line) = lines.next() {
        // You probably want to handle errors in your case
        // unless you are guaranteed to have valid WSV.
        let sum = line
            .unwrap()
            .into_iter()
            // We're counting None as 0, so flat_map them out.
            .flat_map(|opt| opt)
            .map(|value| value.parse::<i32>().unwrap_or(0))
            .sum::<i32>();

        summed.push(vec![Some(sum.to_string())]);
    }

    let mut writer = WSVWriter::new(summed);
    while let Some(ch) = writer.next() {
        // Your code to dump the output to a file goes here.
        println!("{}", ch)
    }
}

#[test]
fn error_location_reporting_is_correct() {
    let input = "some values would go here\n        and this is a second line,\n        but the realy error happens\n\"here where the string is unclosed.\n";

    let mut tokenizer = WSVLazyTokenizer::new(input.chars().collect());
    while let Some(result) = tokenizer.next() {
        match result {
            Ok(_) => {}
            Err(err) => {
                assert_eq!(4, err.location().line());
                assert_eq!(36, err.location().col());
            }
        }
    }
}

#[test]
fn jagged_array_no_panic() {
    WSVWriter::new(vec![
        vec![Some("1".to_string())],
        vec![Some("3".to_string()), None],
    ])
    .align_columns(ColumnAlignment::Left)
    .to_string();
}
