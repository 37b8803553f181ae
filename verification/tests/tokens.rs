use parser::{tokenize, TOKEN};

#[test]
fn tokenizes_comments() {
    assert_eq!(tokenize("; hello\n  \t(").unwrap().1, 11);
    assert_eq!(tokenize(";").unwrap().1, 1);
}

#[test]
fn tokenizes_properties() {
    assert_eq!(tokenize(":prop ()").unwrap().1, 5);
    assert_eq!(
        tokenize(":prop ()").unwrap().0,
        TOKEN::Property("prop".to_string())
    );
    assert_eq!(tokenize(":").unwrap_err().0, "expected a word".to_string());
    assert_eq!(
        tokenize(":prop)").unwrap().0,
        TOKEN::Property("prop".to_string())
    );
}

#[test]
fn tokenizes_types() {
    assert_eq!(
        tokenize("'string \"hello\"").unwrap().0,
        TOKEN::Type("string".to_string())
    );
    assert_eq!(tokenize("'string").unwrap().1, 7);
    assert_eq!(tokenize("'").unwrap_err().0, "expected a word".to_string());
}

#[test]
fn tokenizes_scopes() {
    assert_eq!(tokenize("()").unwrap().0, TOKEN::OParen);
    assert_eq!(tokenize(")").unwrap().0, TOKEN::CParen);
}

#[test]
fn tokenizes_builtins() {
    assert_eq!(tokenize("%ffi )").unwrap().1, 4);
    assert_eq!(
        tokenize("%main ").unwrap().0,
        TOKEN::Builtin("main".to_string())
    );
}

#[test]
fn tokenizes_arrays() {
    assert_eq!(
        tokenize("[\"a\" \"b\"]").unwrap(),
        (
            TOKEN::Array(vec![
                TOKEN::Quoted("a".to_string()),
                TOKEN::Quoted("b".to_string())
            ]),
            9
        )
    );
}

#[test]
fn tokenizes_strings() {
    assert_eq!(tokenize("\"string\"").unwrap().1, 8);
    assert_eq!(
        tokenize("\"string\"").unwrap().0,
        TOKEN::Quoted("string".to_string())
    );
    assert_eq!(
        tokenize("\"string").unwrap_err().0,
        "expected closing \"".to_string()
    );
}

#[test]
fn tokenizes_numbers() {
    assert_eq!(tokenize("42 ").unwrap(), (TOKEN::Number(42), 2));
    assert_eq!(tokenize("3.25)").unwrap(), (TOKEN::Float(325, 2), 4));
}

#[test]
fn tokenizes_pres() {
    assert_eq!(tokenize("#static").unwrap().1, 7);
    assert_eq!(
        tokenize("#inline ").unwrap().0,
        TOKEN::Pre("inline".to_string())
    );
}

#[test]
fn tokenizes_words() {
    assert_eq!(tokenize("word").unwrap().1, 4);
    assert_eq!(
        tokenize("works ()").unwrap().0,
        TOKEN::Words("works".to_string())
    );
    assert_eq!(
        tokenize("works)").unwrap().0,
        TOKEN::Words("works".to_string())
    );
}

#[test]
fn tokenizes_interfaces() {
    assert_eq!(
        tokenize(",debug-it").unwrap().0,
        TOKEN::Interface("debug-it".to_string())
    );
    assert_eq!(tokenize(",d").unwrap().1, 2);
}
