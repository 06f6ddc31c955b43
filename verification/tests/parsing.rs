use exacting::{
    convert_parsed, parse, parse_and_convert, parse_relaxed, parse_strict, read_answer,
    ConversionError, Error, HostObject, Mode, ParseError, TreeNode,
};

#[test]
fn trailing_comma_is_relaxed_only() {
    assert!(matches!(parse_and_convert("[1,2,]", Mode::Strict), Err(Error::Parse(_))));
    assert!(matches!(parse_and_convert("{\"a\":1,}", Mode::Strict), Err(Error::Parse(_))));
    assert_eq!(
        parse_and_convert("[1,2,]", Mode::Relaxed),
        parse_and_convert("[1,2]", Mode::Strict)
    );
    assert_eq!(
        parse_and_convert("{\"a\":1,}", Mode::Relaxed),
        parse_and_convert("{\"a\":1}", Mode::Strict)
    );
    assert_eq!(parse_relaxed("[1,2,]").unwrap(), parse_strict("[1,2]").unwrap());
}

#[test]
fn comments_are_relaxed_only() {
    let text = "// a line\n{\"a\": /* inside */ [1, 2]}";
    assert!(matches!(parse_and_convert(text, Mode::Strict), Err(Error::Parse(_))));
    assert_eq!(
        parse_and_convert(text, Mode::Relaxed),
        parse_and_convert("{\"a\":[1,2]}", Mode::Strict)
    );
    assert_eq!(parse_relaxed(text).unwrap(), parse_strict("{\"a\":[1,2]}").unwrap());
}

#[test]
fn unquoted_keys_are_relaxed_only() {
    assert!(matches!(parse_and_convert("{a:1,b:\"x\"}", Mode::Strict), Err(Error::Parse(_))));
    assert_eq!(
        parse_and_convert("{a:1,b:\"x\"}", Mode::Relaxed),
        parse_and_convert("{\"a\":1,\"b\":\"x\"}", Mode::Strict)
    );
    assert_eq!(
        parse_relaxed("{a:1,b:\"x\"}").unwrap(),
        parse_strict("{\"a\":1,\"b\":\"x\"}").unwrap()
    );
}

#[test]
fn single_quotes_are_relaxed_only() {
    assert!(matches!(parse_and_convert("'s'", Mode::Strict), Err(Error::Parse(_))));
    assert_eq!(parse_and_convert("'s'", Mode::Relaxed), Ok(HostObject::Text("s".to_string())));
}

#[test]
fn strict_text_reads_alike_in_both_modes() {
    for text in ["null", "true", "[1,2.5,\"x\"]", "{\"a\":{\"b\":[]}}", "\"s\"", "-3"] {
        assert_eq!(parse_strict(text).unwrap(), parse_relaxed(text).unwrap());
        assert_eq!(
            parse_and_convert(text, Mode::Strict),
            parse_and_convert(text, Mode::Relaxed)
        );
    }
}

#[test]
fn malformed_text_is_a_parse_error_in_both_modes() {
    for text in ["{", "[1,2", "]", "}", "[1 2]", "{\"a\"}", "{\"a\":}", "\"open", "", "nul", "[1] x"] {
        for mode in [Mode::Strict, Mode::Relaxed] {
            match parse_and_convert(text, mode) {
                Err(Error::Parse(e)) => assert_eq!(e.mode, mode),
                other => panic!("{:?} in {:?} gave {:?}", text, mode, other),
            }
            match parse(text, mode) {
                Err(e) => assert_eq!(e.mode, mode),
                other => panic!("{:?} in {:?} gave {:?}", text, mode, other),
            }
        }
    }
}

#[test]
fn parse_error_names_its_grammar() {
    let e = parse_strict("{").unwrap_err();
    assert_eq!(e.mode, Mode::Strict);
    assert!(!e.detail.is_empty());
    assert_eq!(e.message(), format!("Failed to load JSON:\n{}", e.detail));
    let e = parse_relaxed("{").unwrap_err();
    assert_eq!(e.mode, Mode::Relaxed);
    assert!(!e.detail.is_empty());
    assert_eq!(e.message(), format!("Failed to load JSONC:\n{}", e.detail));
}

#[test]
fn parse_picks_the_grammar_of_the_mode() {
    assert_eq!(parse("[1,]", Mode::Relaxed).unwrap(), parse_relaxed("[1,]").unwrap());
    assert_eq!(parse("[1]", Mode::Strict).unwrap(), parse_strict("[1]").unwrap());
    assert_eq!(parse("[1,]", Mode::Strict).unwrap_err().mode, Mode::Strict);
}

#[test]
fn strict_grammar_refuses_deep_nesting() {
    let deep = format!("{}{}", "[".repeat(200), "]".repeat(200));
    assert!(matches!(parse_and_convert(&deep, Mode::Strict), Err(Error::Parse(_))));
    let fine = format!("{}{}", "[".repeat(100), "]".repeat(100));
    assert!(parse_and_convert(&fine, Mode::Strict).is_ok());
}

#[test]
fn rejection_is_handed_on_unchanged() {
    let e = ParseError { mode: Mode::Relaxed, detail: "unexpected end".to_string() };
    assert_eq!(
        convert_parsed(Err(ParseError { mode: Mode::Relaxed, detail: "unexpected end".to_string() })),
        Err(Error::Parse(e))
    );
}

#[test]
fn answer_of_the_grammar_is_converted() {
    assert_eq!(
        convert_parsed(Ok(TreeNode::Bool(Some(true)))),
        Ok(HostObject::Bool(true))
    );
    assert_eq!(
        convert_parsed(Ok(TreeNode::Number(None))),
        Err(Error::Conversion(ConversionError::Structure(exacting::NodeKind::Number)))
    );
    assert_eq!(convert_parsed(parse_strict("[null]")), parse_and_convert("[null]", Mode::Strict));
}

#[test]
fn messages_of_the_errors() {
    assert_eq!(ConversionError::Numeric.message(), "Failed to represent number");
    assert_eq!(
        ConversionError::Structure(exacting::NodeKind::Null).message(),
        "Failed to convert into null"
    );
    assert_eq!(
        ConversionError::Structure(exacting::NodeKind::Bool).message(),
        "Failed to convert into bool"
    );
    assert_eq!(
        ConversionError::Structure(exacting::NodeKind::Number).message(),
        "Failed to convert into number"
    );
    assert_eq!(
        ConversionError::Structure(exacting::NodeKind::String).message(),
        "Failed to convert into string"
    );
    assert_eq!(
        ConversionError::Structure(exacting::NodeKind::Array).message(),
        "Failed to convert into array"
    );
    assert_eq!(
        ConversionError::Structure(exacting::NodeKind::Object).message(),
        "Failed to convert into object"
    );
    assert_eq!(
        Error::Conversion(ConversionError::Numeric).message(),
        "Failed to represent number"
    );
    let e = Error::Parse(ParseError { mode: Mode::Strict, detail: "why".to_string() });
    assert_eq!(e.message(), "Failed to load JSON:\nwhy");
    let e = Error::Parse(ParseError { mode: Mode::Relaxed, detail: "why".to_string() });
    assert_eq!(e.message(), "Failed to load JSONC:\nwhy");
}

#[test]
fn answer_of_a_grammar_becomes_a_tree_or_a_parse_error() {
    assert_eq!(
        read_answer(Ok(ijson::IValue::from(true)), Mode::Relaxed),
        Ok(TreeNode::Bool(Some(true)))
    );
    assert_eq!(
        read_answer(Ok(ijson::IValue::from("text")), Mode::Strict),
        Ok(TreeNode::String(Some("text".to_string())))
    );
    assert_eq!(
        read_answer(Err("why".to_string()), Mode::Strict),
        Err(ParseError { mode: Mode::Strict, detail: "why".to_string() })
    );
    assert_eq!(
        read_answer(Err(String::new()), Mode::Relaxed),
        Err(ParseError { mode: Mode::Relaxed, detail: String::new() })
    );
}

#[test]
fn relaxed_text_read_twice_gives_one_tree() {
    let text = "{a: [1, 2.5, 'x',], /* c */ b: {c: null}}";
    assert_eq!(parse_relaxed(text).unwrap(), parse_relaxed(text).unwrap());
    assert_eq!(parse_and_convert(text, Mode::Relaxed), parse_and_convert(text, Mode::Relaxed));
}
