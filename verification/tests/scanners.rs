use parser::{
    ensure_word_to_end, make_ident_or_error, parse_array, parse_quoted, seek_past_newline,
    seek_past_whitespace, tokenize, ASTError, Reason, Tag, TOKEN,
};

fn quoted(text: &str) -> TOKEN {
    TOKEN::Quoted(text.to_string())
}

#[test]
fn whitespace_is_counted_to_the_first_other_character() {
    assert_eq!(seek_past_whitespace("  x"), 2);
    assert_eq!(seek_past_whitespace(" \t\n\t x y"), 5);
    assert_eq!(seek_past_whitespace("x  "), 0);
    assert_eq!(seek_past_whitespace("   "), 3);
    assert_eq!(seek_past_whitespace(""), 0);
}

#[test]
fn carriage_return_is_no_whitespace() {
    assert_eq!(seek_past_whitespace(" \r "), 1);
}

#[test]
fn comment_runs_through_the_newline_and_the_blank_that_follows() {
    assert_eq!(seek_past_newline("; a\n\n  b"), 7);
    assert_eq!(seek_past_newline("; a\nb"), 4);
    assert_eq!(seek_past_newline("; a\n"), 4);
    assert_eq!(seek_past_newline("; a\n \t"), 6);
}

#[test]
fn comment_without_newline_runs_to_the_end() {
    assert_eq!(seek_past_newline("; no newline here"), 17);
    assert_eq!(seek_past_newline(""), 0);
}

#[test]
fn comment_keeps_blanks_before_the_newline_inside() {
    assert_eq!(seek_past_newline(";  \t x \n("), 8);
}

#[test]
fn word_ends_at_each_delimiter() {
    assert_eq!(ensure_word_to_end("abc def").unwrap(), 3);
    assert_eq!(ensure_word_to_end("abc\tdef").unwrap(), 3);
    assert_eq!(ensure_word_to_end("abc\ndef").unwrap(), 3);
    assert_eq!(ensure_word_to_end("abc)def").unwrap(), 3);
}

#[test]
fn word_ends_with_the_text() {
    assert_eq!(ensure_word_to_end("a-b_c9").unwrap(), 6);
    assert_eq!(ensure_word_to_end("").unwrap(), 0);
}

#[test]
fn word_may_be_empty_before_a_delimiter() {
    assert_eq!(ensure_word_to_end(" abc").unwrap(), 0);
    assert_eq!(ensure_word_to_end(")").unwrap(), 0);
}

#[test]
fn word_rejects_other_characters() {
    let e = ensure_word_to_end("ab(c").unwrap_err();
    assert_eq!(e.1, Reason::InvalidCharacterInWord('('));
    assert_eq!(e.0, "invalid character in word (");
    let e = ensure_word_to_end("$").unwrap_err();
    assert_eq!(e.1, Reason::InvalidCharacterInWord('$'));
}

#[test]
fn word_counts_characters_not_bytes() {
    assert_eq!(ensure_word_to_end("héllo wörld").unwrap(), 5);
    assert_eq!(ensure_word_to_end("日本語)").unwrap(), 3);
}

#[test]
fn ident_is_wrapped_by_its_tag() {
    assert_eq!(
        make_ident_or_error("name)", Tag::Type).unwrap(),
        (TOKEN::Type("name".to_string()), 4)
    );
    assert_eq!(
        make_ident_or_error("name", Tag::Declaration).unwrap(),
        (TOKEN::Declaration("name".to_string()), 4)
    );
    assert_eq!(
        make_ident_or_error("p q", Tag::Property).unwrap(),
        (TOKEN::Property("p".to_string()), 1)
    );
    assert_eq!(
        make_ident_or_error("b-1 ", Tag::Builtin).unwrap(),
        (TOKEN::Builtin("b-1".to_string()), 3)
    );
    assert_eq!(
        make_ident_or_error("pre\n", Tag::Pre).unwrap(),
        (TOKEN::Pre("pre".to_string()), 3)
    );
    assert_eq!(
        make_ident_or_error("i_f\t", Tag::Interface).unwrap(),
        (TOKEN::Interface("i_f".to_string()), 3)
    );
    assert_eq!(
        make_ident_or_error("wörd etc", Tag::Words).unwrap(),
        (TOKEN::Words("wörd".to_string()), 4)
    );
}

#[test]
fn ident_must_not_be_empty() {
    let e = make_ident_or_error("", Tag::Type).unwrap_err();
    assert_eq!(e.1, Reason::ExpectedWord);
    assert_eq!(e.0, "expected a word");
    let e = make_ident_or_error(" x", Tag::Type).unwrap_err();
    assert_eq!(e.1, Reason::ExpectedWord);
}

#[test]
fn ident_passes_the_word_error_on() {
    let e = make_ident_or_error("a+b", Tag::Words).unwrap_err();
    assert_eq!(e.1, Reason::InvalidCharacterInWord('+'));
    assert_eq!(e.0, "invalid character in word +");
}

#[test]
fn from_tag_copies_the_name() {
    assert_eq!(TOKEN::from_tag(Tag::Type, "t"), TOKEN::Type("t".to_string()));
    assert_eq!(TOKEN::from_tag(Tag::Words, "w"), TOKEN::Words("w".to_string()));
    assert_eq!(
        TOKEN::from_tag(Tag::Interface, ""),
        TOKEN::Interface(String::new())
    );
}

#[test]
fn quoted_counts_through_the_closing_quote() {
    assert_eq!(parse_quoted("string\"").unwrap(), (quoted("string"), 7));
    assert_eq!(parse_quoted("\"").unwrap(), (quoted(""), 1));
    assert_eq!(parse_quoted("a\" tail").unwrap(), (quoted("a"), 2));
}

#[test]
fn quoted_keeps_other_characters_as_they_are() {
    assert_eq!(
        parse_quoted("(a b)\t;\n[']\"").unwrap(),
        (quoted("(a b)\t;\n[']"), 12)
    );
    assert_eq!(parse_quoted("héé\"").unwrap(), (quoted("héé"), 4));
}

#[test]
fn quoted_decodes_each_escape() {
    assert_eq!(parse_quoted("a\\nb\"").unwrap(), (quoted("a\nb"), 5));
    assert_eq!(parse_quoted("\\t\"").unwrap(), (quoted("\t"), 3));
    assert_eq!(parse_quoted("\\r\"").unwrap(), (quoted("\r"), 3));
    assert_eq!(parse_quoted("\\0\"").unwrap(), (quoted("\0"), 3));
    assert_eq!(parse_quoted("\\\\\"").unwrap(), (quoted("\\"), 3));
    assert_eq!(parse_quoted("\\\"\"").unwrap(), (quoted("\""), 3));
    assert_eq!(parse_quoted("\\x\"").unwrap(), (quoted("\u{10}"), 3));
    assert_eq!(parse_quoted("\\u\"").unwrap(), (quoted("\u{10}"), 3));
}

#[test]
fn quoted_escape_holds_for_one_character() {
    assert_eq!(parse_quoted("\\nn\\tt\"").unwrap(), (quoted("\nn\tt"), 7));
    assert_eq!(parse_quoted("\\\\n\"").unwrap(), (quoted("\\n"), 4));
}

#[test]
fn quoted_escaped_quote_does_not_close() {
    assert_eq!(
        parse_quoted("say \\\"hi\\\"\" rest").unwrap(),
        (quoted("say \"hi\""), 11)
    );
}

#[test]
fn quoted_rejects_unknown_escape() {
    let e = parse_quoted("a\\qb\"").unwrap_err();
    assert_eq!(e.1, Reason::InvalidEscapeCharacter('q'));
    assert_eq!(e.0, "invalid escape character q");
}

#[test]
fn quoted_needs_its_closing_quote() {
    let e = parse_quoted("abc").unwrap_err();
    assert_eq!(e.1, Reason::UnterminatedString);
    assert_eq!(e.0, "expected closing \"");
    assert_eq!(parse_quoted("").unwrap_err().1, Reason::UnterminatedString);
    assert_eq!(
        parse_quoted("abc\\").unwrap_err().1,
        Reason::UnterminatedString
    );
    assert_eq!(
        parse_quoted("abc\\\"").unwrap_err().1,
        Reason::UnterminatedString
    );
}

#[test]
fn quoted_reports_the_first_fault() {
    assert_eq!(
        parse_quoted("\\q and no end").unwrap_err().1,
        Reason::InvalidEscapeCharacter('q')
    );
}

#[test]
fn array_holds_its_strings_in_order() {
    assert_eq!(
        parse_array("\"a\" \"b\"]").unwrap(),
        (TOKEN::Array(vec![quoted("a"), quoted("b")]), 9)
    );
    assert_eq!(
        parse_array("\"b\"\"a\"\"c\"] tail").unwrap(),
        (
            TOKEN::Array(vec![quoted("b"), quoted("a"), quoted("c")]),
            11
        )
    );
}

#[test]
fn array_may_be_empty() {
    assert_eq!(parse_array("]").unwrap(), (TOKEN::Array(vec![]), 2));
    assert_eq!(parse_array(" \n\t]x").unwrap(), (TOKEN::Array(vec![]), 5));
}

#[test]
fn array_skips_whitespace_around_elements() {
    assert_eq!(
        parse_array("\n  \"x y\"\t\n]").unwrap(),
        (TOKEN::Array(vec![quoted("x y")]), 12)
    );
}

#[test]
fn array_strings_are_decoded() {
    assert_eq!(
        parse_array("\"a]\" \"\\\"\"]").unwrap(),
        (TOKEN::Array(vec![quoted("a]"), quoted("\"")]), 11)
    );
}

#[test]
fn array_needs_its_closing_bracket() {
    let e = parse_array("\"a\" ").unwrap_err();
    assert_eq!(e.1, Reason::UnterminatedArray);
    assert_eq!(e.0, "expected closing ]");
    assert_eq!(parse_array("").unwrap_err().1, Reason::UnterminatedArray);
}

#[test]
fn array_holds_strings_only() {
    let e = parse_array("5 6]").unwrap_err();
    assert_eq!(e.1, Reason::InvalidArrayElement('5'));
    assert_eq!(e.0, "invalid array element: 5");
    assert_eq!(
        parse_array("\"a\" word]").unwrap_err().1,
        Reason::InvalidArrayElement('w')
    );
    assert_eq!(
        parse_array("[\"a\"]]").unwrap_err().1,
        Reason::InvalidArrayElement('[')
    );
    assert_eq!(
        parse_array("\"a\", \"b\"]").unwrap_err().1,
        Reason::InvalidArrayElement(',')
    );
    assert_eq!(
        parse_array("$]").unwrap_err().1,
        Reason::InvalidArrayElement('$')
    );
}

#[test]
fn array_length_ends_at_the_closing_bracket() {
    for inside in ["]", " ]", "\"a\" \"b\"] tail", "\"]\"\n] ]"] {
        let (_, n) = parse_array(inside).unwrap();
        assert!(2 <= n && n <= inside.len() + 1);
        assert_eq!(inside.as_bytes()[n - 2], b']');
        let whole = format!("[{}", inside);
        assert_eq!(tokenize(&whole).unwrap().1, n);
    }
}

#[test]
fn array_passes_the_string_error_on() {
    assert_eq!(
        parse_array("\"a\" \"b]").unwrap_err().1,
        Reason::UnterminatedString
    );
    assert_eq!(
        parse_array("\"\\z\"]").unwrap_err().1,
        Reason::InvalidEscapeCharacter('z')
    );
}

#[test]
fn number_reads_its_digits() {
    assert_eq!(tokenize("0").unwrap(), (TOKEN::Number(0), 1));
    assert_eq!(tokenize("42 ").unwrap(), (TOKEN::Number(42), 2));
    assert_eq!(tokenize("007)").unwrap(), (TOKEN::Number(7), 3));
    assert_eq!(tokenize("12abc").unwrap(), (TOKEN::Number(12), 2));
}

#[test]
fn number_may_be_as_large_as_fits() {
    assert_eq!(
        tokenize("18446744073709551615").unwrap(),
        (TOKEN::Number(u64::MAX), 20)
    );
    assert_eq!(
        tokenize("00018446744073709551615 ").unwrap(),
        (TOKEN::Number(u64::MAX), 23)
    );
}

#[test]
fn number_too_large_is_an_error() {
    let e = tokenize("18446744073709551616").unwrap_err();
    assert_eq!(e.1, Reason::NumberTooLarge);
    assert_eq!(e.0, "number too large");
    assert_eq!(
        tokenize("99999999999999999999999 ").unwrap_err().1,
        Reason::NumberTooLarge
    );
    assert_eq!(
        tokenize("18446744073709551615.5").unwrap_err().1,
        Reason::NumberTooLarge
    );
    assert_eq!(
        tokenize("1.8446744073709551616").unwrap_err().1,
        Reason::NumberTooLarge
    );
}

#[test]
fn float_carries_digits_and_scale() {
    assert_eq!(tokenize("3.25)").unwrap(), (TOKEN::Float(325, 2), 4));
    assert_eq!(tokenize("0.001").unwrap(), (TOKEN::Float(1, 3), 5));
    assert_eq!(tokenize("10.50 ").unwrap(), (TOKEN::Float(1050, 2), 5));
    assert_eq!(
        tokenize("1.8446744073709551615").unwrap(),
        (TOKEN::Float(u64::MAX, 19), 21)
    );
}

#[test]
fn float_may_end_with_its_point() {
    assert_eq!(tokenize("12.").unwrap(), (TOKEN::Float(12, 0), 3));
    assert_eq!(tokenize("12.x").unwrap(), (TOKEN::Float(12, 0), 3));
    assert_eq!(tokenize("1.5.3").unwrap(), (TOKEN::Float(15, 1), 3));
}

#[test]
fn error_carries_message_and_reason() {
    let cases = vec![
        (Reason::InvalidLeadingCharacter('$'), "invalid token: $"),
        (Reason::ExpectedWord, "expected a word"),
        (
            Reason::InvalidCharacterInWord('é'),
            "invalid character in word é",
        ),
        (
            Reason::InvalidEscapeCharacter('q'),
            "invalid escape character q",
        ),
        (Reason::UnterminatedString, "expected closing \""),
        (Reason::UnterminatedArray, "expected closing ]"),
        (Reason::InvalidArrayElement('5'), "invalid array element: 5"),
        (Reason::NumberTooLarge, "number too large"),
    ];
    for (reason, message) in cases {
        let e = ASTError::new(reason);
        assert_eq!(e.0, message);
        assert_eq!(e.1, reason);
        assert_eq!(e.reason(), reason);
    }
}
