use post::entry::{DecodeFault, Entry};
use post::text::{chars_of, push_decimal, string_of};

fn entry(index: u16, content: &str, comment: Option<&str>) -> Entry {
    Entry { index, content: content.to_string(), comment: comment.map(|c| c.to_string()) }
}

#[test]
fn encodes_a_record_without_comment() {
    assert_eq!(entry(0, "buy milk", None).into_output_string(), "0|buy milk");
    assert_eq!(Entry::new(12, "x".to_string()).output_string(), "12|x");
}

#[test]
fn encodes_a_record_with_comment() {
    assert_eq!(entry(1, "call mom", Some("important")).into_output_string(), "1|call mom??important");
    assert_eq!(
        Entry::with_comment(65535, "a".to_string(), "".to_string()).into_output_string(),
        "65535|a??"
    );
}

#[test]
fn decodes_a_line_without_comment() {
    assert_eq!(Entry::from_str("0|buy milk"), Ok(entry(0, "buy milk", None)));
    assert_eq!(Entry::from_str("7|"), Ok(entry(7, "", None)));
}

#[test]
fn decodes_a_line_with_comment() {
    assert_eq!(
        Entry::from_str("1|call mom??important"),
        Ok(entry(1, "call mom", Some("important")))
    );
    assert_eq!(Entry::from_str("3|a??"), Ok(entry(3, "a", Some(""))));
    assert_eq!(Entry::from_str("3|??b"), Ok(entry(3, "", Some("b"))));
}

#[test]
fn content_ends_at_the_first_separator_only() {
    assert_eq!(Entry::from_str("2|a|b|c"), Ok(entry(2, "a|b|c", None)));
}

#[test]
fn content_ends_at_the_first_token_whatever_was_meant() {
    assert_eq!(Entry::from_str("4|what??really??yes"), Ok(entry(4, "what", Some("really??yes"))));
    assert_eq!(Entry::from_str("4|a???b"), Ok(entry(4, "a", Some("?b"))));
    assert_eq!(Entry::from_str("4|a?b"), Ok(entry(4, "a?b", None)));
}

#[test]
fn a_token_in_the_content_does_not_come_back() {
    let written = entry(5, "why??", Some("note")).into_output_string();
    assert_eq!(written, "5|why????note");
    assert_eq!(Entry::from_str(&written), Ok(entry(5, "why", Some("??note"))));
}

#[test]
fn a_line_without_separator_is_refused() {
    assert_eq!(Entry::from_str("buy milk"), Err(DecodeFault::MissingSeparator));
    assert_eq!(Entry::from_str(""), Err(DecodeFault::MissingSeparator));
    assert_eq!(Entry::from_str("12"), Err(DecodeFault::MissingSeparator));
}

#[test]
fn a_bad_index_is_refused() {
    assert_eq!(Entry::from_str("|x"), Err(DecodeFault::BadIndex));
    assert_eq!(Entry::from_str("abc|x"), Err(DecodeFault::BadIndex));
    assert_eq!(Entry::from_str("-1|x"), Err(DecodeFault::BadIndex));
    assert_eq!(Entry::from_str("1 |x"), Err(DecodeFault::BadIndex));
    assert_eq!(Entry::from_str(" 1|x"), Err(DecodeFault::BadIndex));
    assert_eq!(Entry::from_str("+|x"), Err(DecodeFault::BadIndex));
    assert_eq!(Entry::from_str("++1|x"), Err(DecodeFault::BadIndex));
    assert_eq!(Entry::from_str("1_0|x"), Err(DecodeFault::BadIndex));
    assert_eq!(Entry::from_str("\u{0661}|x"), Err(DecodeFault::BadIndex));
}

#[test]
fn an_index_out_of_range_is_refused() {
    assert_eq!(Entry::from_str("65536|x"), Err(DecodeFault::BadIndex));
    assert_eq!(Entry::from_str("99999999999999999999999|x"), Err(DecodeFault::BadIndex));
    assert_eq!(Entry::from_str("65535|x"), Ok(entry(65535, "x", None)));
}

#[test]
fn an_index_may_carry_a_sign_or_leading_zeros() {
    assert_eq!(Entry::from_str("+5|x"), Ok(entry(5, "x", None)));
    assert_eq!(Entry::from_str("007|x"), Ok(entry(7, "x", None)));
    assert_eq!(Entry::from_str("0000000000065535|x"), Ok(entry(65535, "x", None)));
}

#[test]
fn the_index_parser_agrees_with_the_standard_one() {
    for token in ["0", "9", "10", "65535", "65536", "+0", "+65535", "+65536", "", "+", "-0", "0x1", "00", "١"] {
        let line = format!("{token}|x");
        let expected = token.parse::<u16>().ok();
        assert_eq!(Entry::from_str(&line).ok().map(|e| e.index), expected);
    }
}

#[test]
fn a_record_comes_back_from_its_line() {
    for record in [
        entry(0, "", None),
        entry(1, "buy milk", None),
        entry(2, "call mom", Some("important")),
        entry(65535, "a?b|c", Some("x??y")),
        entry(9, "grüße ✓", Some("ünïcödé")),
    ] {
        assert_eq!(Entry::from_str(&record.output_string()), Ok(record));
    }
}

#[test]
fn a_well_formed_line_comes_back_from_its_record() {
    for line in ["0|", "1|buy milk", "2|call mom??important", "65535|a??", "10|a???b", "3|x|y??z??w"] {
        assert_eq!(Entry::from_str(line).unwrap().into_output_string(), line);
    }
}

#[test]
fn a_line_with_a_long_index_comes_back_shorter() {
    assert_eq!(Entry::from_str("+007|x").unwrap().into_output_string(), "7|x");
}

#[test]
fn shows_a_record() {
    assert_eq!(entry(3, "buy milk", None).display_string(false), "3 | buy milk");
    assert_eq!(entry(3, "buy milk", Some("soon")).display_string(false), "3 | buy milk ?? soon");
    assert_eq!(entry(3, "buy milk", Some("soon")).display_string(true), "buy milk");
}

#[test]
fn duplicates_a_record() {
    let record = entry(3, "buy milk", Some("soon"));
    assert_eq!(record.duplicate(), record);
}

#[test]
fn writes_numbers_in_decimal() {
    let mut out = String::from("n=");
    push_decimal(&mut out, 0);
    out.push(',');
    push_decimal(&mut out, 7);
    out.push(',');
    push_decimal(&mut out, 10);
    out.push(',');
    push_decimal(&mut out, 65535);
    out.push(',');
    push_decimal(&mut out, u64::MAX);
    assert_eq!(out, "n=0,7,10,65535,18446744073709551615");
}

#[test]
fn takes_strings_apart_by_characters() {
    let chars = chars_of("aé✓b");
    assert_eq!(chars, vec!['a', 'é', '✓', 'b']);
    assert_eq!(string_of(&chars, 1, 3), "é✓");
    assert_eq!(string_of(&chars, 2, 2), "");
}
