use tokenizer::lexer::internal_tokenize;
use tokenizer::token::RawToken;

#[test]
fn should_handle_double_right_arrow() {
    let input = " <=";
    let output = internal_tokenize(input).unwrap();

    assert_eq!(output.len(), 2);
    assert_eq!(output[1].start, 1);
    assert_eq!(output[1].end, 2);
    assert!(matches!(output[1].item, RawToken::DRArrow));
}

#[test]
fn should_handle_single_right_arrow() {
    let input = " <-";
    let output = internal_tokenize(input).unwrap();

    assert_eq!(output.len(), 2);
    assert_eq!(output[1].start, 1);
    assert_eq!(output[1].end, 2);
    assert!(matches!(output[1].item, RawToken::SRArrow));
}

#[test]
fn should_handle_l_angle() {
    let input = " <";
    let output = internal_tokenize(input).unwrap();

    assert_eq!(output.len(), 2);
    assert_eq!(output[1].start, 1);
    assert_eq!(output[1].end, 1);
    assert!(matches!(output[1].item, RawToken::LAngle));
}

#[test]
fn should_parse_comment() {
    let input = r#"#this is a comment
                        false
        "#;
    let output = internal_tokenize(input).unwrap();

    assert_eq!(output.len(), 4);
    assert_eq!(output[2].start, 43);
    assert_eq!(output[2].end, 47);

    let name = match &output[2].item {
        RawToken::Bool(n) => *n,
        _ => panic!("not bool"),
    };

    assert_eq!(name, false);
}

#[test]
fn should_parse_whitespace() {
    let input = "      \n\t\rfalse";
    let output = internal_tokenize(input).unwrap();

    assert_eq!(output.len(), 2);
    assert_eq!(output[1].start, 9);
    assert_eq!(output[1].end, 13);

    let name = match &output[1].item {
        RawToken::Bool(n) => *n,
        _ => panic!("not bool"),
    };

    assert_eq!(name, false);
}

#[test]
fn should_parse_string() {
    let cases: [(&str, &str); 7] = [
        (r#""string input""#, "string input"),
        (r#""string \n input""#, "string \n input"),
        (r#""string \r input""#, "string \r input"),
        (r#""string \0 input""#, "string \0 input"),
        (r#""string \t input""#, "string \t input"),
        (r#""string \\ input""#, "string \\ input"),
        (r#""string \" input""#, "string \" input"),
    ];
    for (input, expected) in cases {
        let output = internal_tokenize(input).unwrap();

        assert_eq!(output.len(), 1);
        assert_eq!(output[0].start, 0);
        assert_eq!(output[0].end, input.len() - 1);

        let value = match &output[0].item {
            RawToken::String(n) => n.clone(),
            _ => panic!("not string"),
        };

        println!("{}", value);
        assert_eq!(value, expected);
    }
}

#[test]
fn should_parse_numbers() {
    let cases: [(&str, f64); 13] = [
        ("0", 0.0),
        ("0.0", 0.0),
        ("1E1", 1E1),
        ("1e1", 1e1),
        ("+1.0", 1.0),
        ("-1.0", -1.0),
        ("1E+1", 1E+1),
        ("1e+1", 1e+1),
        ("1234.5678", 1234.5678),
        ("1234.5678E-90", 1234.5678E-90),
        ("1234.5678e-90", 1234.5678e-90),
        ("1234.5678e-901", 1234.5678e-901),
        ("1234", 1234.0),
    ];
    for (input, expected) in cases {
        let output = internal_tokenize(input).unwrap();

        assert_eq!(output.len(), 1);
        assert_eq!(output[0].start, 0);
        assert_eq!(output[0].end, input.len() - 1);

        let value = match &output[0].item {
            RawToken::Number(n) => n.parse::<f64>().unwrap(),
            _ => panic!("not number"),
        };

        assert_eq!(value, expected);
    }
}

#[test]
fn should_parse_boolean_starting_lower_symbol() {
    let input = "false_";
    let output = internal_tokenize(input).unwrap();

    assert_eq!(output.len(), 1);
    assert_eq!(output[0].start, 0);
    assert_eq!(output[0].end, input.len() - 1);

    let name = match &output[0].item {
        RawToken::LowerSymbol(n) => n.clone(),
        _ => panic!("not lower symbol"),
    };

    assert_eq!(name, "false_");
}

#[test]
fn should_parse_false() {
    let input = "false";
    let output = internal_tokenize(input).unwrap();

    assert_eq!(output.len(), 1);
    assert_eq!(output[0].start, 0);
    assert_eq!(output[0].end, input.len() - 1);

    let name = match &output[0].item {
        RawToken::Bool(n) => *n,
        _ => panic!("not bool"),
    };

    assert_eq!(name, false);
}

#[test]
fn should_parse_true() {
    let input = "true";
    let output = internal_tokenize(input).unwrap();

    assert_eq!(output.len(), 1);
    assert_eq!(output[0].start, 0);
    assert_eq!(output[0].end, input.len() - 1);

    let name = match &output[0].item {
        RawToken::Bool(n) => *n,
        _ => panic!("not bool"),
    };

    assert_eq!(name, true);
}

#[test]
fn should_parse_lower_symbol() {
    let input = "lower_symbol";
    let output = internal_tokenize(input).unwrap();

    assert_eq!(output.len(), 1);
    assert_eq!(output[0].start, 0);
    assert_eq!(output[0].end, input.len() - 1);

    let name = match &output[0].item {
        RawToken::LowerSymbol(n) => n.clone(),
        _ => panic!("not lower symbol"),
    };

    assert_eq!(name, "lower_symbol");
}

#[test]
fn should_parse_single_lower_symbol() {
    let input = "l";
    let output = internal_tokenize(input).unwrap();

    assert_eq!(output.len(), 1);
    assert_eq!(output[0].start, 0);
    assert_eq!(output[0].end, input.len() - 1);

    let name = match &output[0].item {
        RawToken::LowerSymbol(n) => n.clone(),
        _ => panic!("not lower symbol"),
    };

    assert_eq!(name, "l");
}

#[test]
fn should_parse_upper_symbol() {
    let input = "UpperSymbol";
    let output = internal_tokenize(input).unwrap();

    assert_eq!(output.len(), 1);
    assert_eq!(output[0].start, 0);
    assert_eq!(output[0].end, input.len() - 1);

    let name = match &output[0].item {
        RawToken::UpperSymbol(n) => n.clone(),
        _ => panic!("not upper symbol"),
    };

    assert_eq!(name, "UpperSymbol");
}

#[test]
fn should_parse_single_upper_symbol() {
    let input = "U";
    let output = internal_tokenize(input).unwrap();

    assert_eq!(output.len(), 1);
    assert_eq!(output[0].start, 0);
    assert_eq!(output[0].end, input.len() - 1);

    let name = match &output[0].item {
        RawToken::UpperSymbol(n) => n.clone(),
        _ => panic!("not upper symbol"),
    };

    assert_eq!(name, "U");
}
