use tokenizer::lexer::internal_tokenize;
use tokenizer::lexer::tokenize;
use tokenizer::token::LexError;
use tokenizer::token::RawToken;
use tokenizer::token::Token;

#[test]
fn empty_input_gives_no_tokens() {
    assert!(matches!(tokenize(""), Ok(v) if v.is_empty()));
}

#[test]
fn whitespace_only_gives_no_tokens() {
    assert!(matches!(tokenize("  \t\r\n  "), Ok(v) if v.is_empty()));
}

#[test]
fn comments_and_whitespace_give_no_tokens() {
    assert!(matches!(tokenize("# one\n   # two\n"), Ok(v) if v.is_empty()));
}

#[test]
fn comment_may_end_at_end_of_input() {
    assert!(matches!(tokenize("# no terminator"), Ok(v) if v.is_empty()));
}

#[test]
fn spans_are_exact_byte_offsets() {
    let input = "  x42 ";
    let tokens = tokenize(input).unwrap();
    assert_eq!(tokens.len(), 1);
    match &tokens[0] {
        Token::LowerSymbol(m, s) => {
            assert_eq!(m.start, 2);
            assert_eq!(m.end, 4);
            assert_eq!(&input[m.start..=m.end], "x42");
            assert_eq!(s, "x42");
        },
        _ => panic!("not a lower symbol"),
    }
}

#[test]
fn spans_count_bytes_not_characters() {
    // A two-byte character shifts every following byte offset.
    let input = "\u{e9}1 x";
    let tokens = tokenize(input).unwrap();
    assert_eq!(tokens.len(), 2);
    match &tokens[0] {
        Token::LowerSymbol(m, s) => {
            assert_eq!(s, "\u{e9}1");
            assert_eq!(m.start, 0);
            assert_eq!(m.end, 2);
        },
        _ => panic!("not a lower symbol"),
    }
    match &tokens[1] {
        Token::LowerSymbol(m, s) => {
            assert_eq!(s, "x");
            assert_eq!(m.start, 4);
            assert_eq!(m.end, 4);
        },
        _ => panic!("not a lower symbol"),
    }
}

#[test]
fn whitespace_beyond_ascii_is_junk() {
    let tokens = tokenize("\u{a0}false").unwrap();
    assert_eq!(tokens.len(), 1);
    assert!(matches!(&tokens[0], Token::Bool(_, false)));
}

#[test]
fn lower_symbol_with_beyond_ascii_continue() {
    let tokens = tokenize("x\u{e9}").unwrap();
    assert_eq!(tokens.len(), 1);
    match &tokens[0] {
        Token::LowerSymbol(_, s) => assert_eq!(s, "x\u{e9}"),
        _ => panic!("not a lower symbol"),
    }
}

#[test]
fn upper_symbol_beyond_ascii() {
    let tokens = tokenize("\u{c9}x").unwrap();
    assert_eq!(tokens.len(), 1);
    match &tokens[0] {
        Token::UpperSymbol(_, s) => assert_eq!(s, "\u{c9}x"),
        _ => panic!("not an upper symbol"),
    }
}

#[test]
fn maximal_munch_takes_whole_runs() {
    let tokens = tokenize("abc1 12.5e3x").unwrap();
    assert_eq!(tokens.len(), 3);
    match &tokens[0] {
        Token::LowerSymbol(_, s) => assert_eq!(s, "abc1"),
        _ => panic!("not a lower symbol"),
    }
    match &tokens[1] {
        Token::Number(m, s) => {
            assert_eq!(s, "12.5e3");
            assert_eq!(m.start, 5);
            assert_eq!(m.end, 10);
        },
        _ => panic!("not a number"),
    }
    match &tokens[2] {
        Token::LowerSymbol(_, s) => assert_eq!(s, "x"),
        _ => panic!("not a lower symbol"),
    }
}

#[test]
fn keyword_carve_out() {
    assert!(matches!(tokenize("true").unwrap()[0], Token::Bool(_, true)));
    assert!(matches!(tokenize("false").unwrap()[0], Token::Bool(_, false)));
    assert!(matches!(&tokenize("true_").unwrap()[0], Token::LowerSymbol(_, s) if s == "true_"));
    assert!(matches!(&tokenize("_true").unwrap()[0], Token::LowerSymbol(_, s) if s == "_true"));
    assert!(matches!(&tokenize("falsex").unwrap()[0], Token::LowerSymbol(_, s) if s == "falsex"));
}

#[test]
fn angle_disambiguation() {
    let tokens = tokenize("<-").unwrap();
    assert_eq!(tokens.len(), 1);
    match &tokens[0] {
        Token::SRArrow(m) => {
            assert_eq!(m.start, 0);
            assert_eq!(m.end, 1);
        },
        _ => panic!("not the arrow of < and -"),
    }

    let tokens = tokenize("<=").unwrap();
    assert_eq!(tokens.len(), 1);
    match &tokens[0] {
        Token::DRArrow(m) => {
            assert_eq!(m.start, 0);
            assert_eq!(m.end, 1);
        },
        _ => panic!("not the arrow of < and ="),
    }

    let tokens = tokenize("<").unwrap();
    assert_eq!(tokens.len(), 1);
    match &tokens[0] {
        Token::LAngle(m) => {
            assert_eq!(m.start, 0);
            assert_eq!(m.end, 0);
        },
        _ => panic!("not a left angle"),
    }

    let tokens = tokenize("<x").unwrap();
    assert_eq!(tokens.len(), 2);
    assert!(matches!(&tokens[0], Token::LAngle(m) if m.start == 0 && m.end == 0));
    assert!(matches!(&tokens[1], Token::LowerSymbol(_, s) if s == "x"));
}

#[test]
fn right_arrows_at_top_level() {
    let tokens = tokenize("->").unwrap();
    assert_eq!(tokens.len(), 1);
    assert!(matches!(&tokens[0], Token::SLArrow(m) if m.start == 0 && m.end == 1));

    let tokens = tokenize("=>").unwrap();
    assert_eq!(tokens.len(), 1);
    assert!(matches!(&tokens[0], Token::DLArrow(m) if m.start == 0 && m.end == 1));
}

#[test]
fn punctuation_tokens() {
    let tokens = tokenize("(){}[],;:.|>").unwrap();
    assert_eq!(tokens.len(), 12);
    assert!(matches!(tokens[0], Token::LParen(_)));
    assert!(matches!(tokens[1], Token::RParen(_)));
    assert!(matches!(tokens[2], Token::LCurl(_)));
    assert!(matches!(tokens[3], Token::RCurl(_)));
    assert!(matches!(tokens[4], Token::LSquare(_)));
    assert!(matches!(tokens[5], Token::RSquare(_)));
    assert!(matches!(tokens[6], Token::Comma(_)));
    assert!(matches!(tokens[7], Token::SemiColon(_)));
    assert!(matches!(tokens[8], Token::Colon(_)));
    assert!(matches!(tokens[9], Token::Dot(_)));
    assert!(matches!(tokens[10], Token::OrBar(_)));
    assert!(matches!(tokens[11], Token::RAngle(_)));
    for (i, t) in tokens.iter().enumerate() {
        let m = match t {
            Token::LParen(m) | Token::RParen(m) | Token::LCurl(m) | Token::RCurl(m)
            | Token::LSquare(m) | Token::RSquare(m) | Token::Comma(m) | Token::SemiColon(m)
            | Token::Colon(m) | Token::Dot(m) | Token::OrBar(m) | Token::RAngle(m) => m,
            _ => panic!("unexpected token"),
        };
        assert_eq!(m.start, i);
        assert_eq!(m.end, i);
    }
}

#[test]
fn end_to_end_example() {
    let input = "# c\n  x42 <- 3.5e-2 \"a\\nb\"";
    let tokens = tokenize(input).unwrap();
    assert_eq!(tokens.len(), 4);
    match &tokens[0] {
        Token::LowerSymbol(m, s) => {
            assert_eq!(s, "x42");
            assert_eq!(m.start, 6);
            assert_eq!(m.end, 8);
        },
        _ => panic!("not a lower symbol"),
    }
    assert!(matches!(&tokens[1], Token::SRArrow(m) if m.start == 10 && m.end == 11));
    match &tokens[2] {
        Token::Number(m, s) => {
            assert_eq!(s.parse::<f64>().unwrap(), 0.035);
            assert_eq!(&input[m.start..=m.end], "3.5e-2");
        },
        _ => panic!("not a number"),
    }
    match &tokens[3] {
        Token::String(m, s) => {
            assert_eq!(s, "a\nb");
            assert_eq!(m.start, 20);
            assert_eq!(m.end, 25);
        },
        _ => panic!("not a string"),
    }
}

#[test]
fn unterminated_string_is_end_of_input_error() {
    assert!(matches!(tokenize("\"abc"), Err(LexError::UnexpectedEndOfInput)));
}

#[test]
fn unknown_character_is_positioned_error() {
    assert!(matches!(tokenize("$"), Err(LexError::PositionedError(0))));
}

#[test]
fn positioned_error_offset_counts_from_input_start() {
    assert!(matches!(tokenize("ab $"), Err(LexError::PositionedError(3))));
}

#[test]
fn error_offsets_count_bytes() {
    // The two-byte character before the bad one shifts its byte offset.
    assert!(matches!(tokenize("\u{e9} $"), Err(LexError::PositionedError(3))));
}

#[test]
fn comment_span_stops_before_the_terminator() {
    let output = internal_tokenize("#ab\nx").unwrap();
    assert_eq!(output.len(), 3);
    assert!(matches!(output[0].item, RawToken::Junk));
    assert_eq!(output[0].start, 0);
    assert_eq!(output[0].end, 2);
    assert!(matches!(output[1].item, RawToken::Junk));
    assert_eq!(output[1].start, 3);
    assert_eq!(output[1].end, 3);
    assert!(matches!(&output[2].item, RawToken::LowerSymbol(s) if s == "x"));
}

#[test]
fn number_needs_a_digit_in_the_mantissa() {
    assert!(matches!(tokenize("+"), Err(LexError::PositionedError(0))));
    assert!(matches!(tokenize("+."), Err(LexError::PositionedError(0))));
    assert!(matches!(tokenize("+x"), Err(LexError::PositionedError(0))));
}

#[test]
fn dot_does_not_start_a_number() {
    let tokens = tokenize(".5").unwrap();
    assert_eq!(tokens.len(), 2);
    assert!(matches!(tokens[0], Token::Dot(_)));
    assert!(matches!(&tokens[1], Token::Number(_, s) if s == "5"));
}

#[test]
fn committed_exponent_fails_without_digits() {
    assert!(matches!(tokenize("1e"), Err(LexError::UnexpectedEndOfInput)));
    assert!(matches!(tokenize("1e+"), Err(LexError::UnexpectedEndOfInput)));
    assert!(matches!(tokenize("1ex"), Err(LexError::PositionedError(2))));
    assert!(matches!(tokenize("1e+x"), Err(LexError::PositionedError(3))));
}

#[test]
fn committed_arrows_fail_without_their_second_character() {
    assert!(matches!(tokenize("-"), Err(LexError::UnexpectedEndOfInput)));
    assert!(matches!(tokenize("="), Err(LexError::UnexpectedEndOfInput)));
    assert!(matches!(tokenize("-x"), Err(LexError::PositionedError(1))));
    assert!(matches!(tokenize("=x"), Err(LexError::PositionedError(1))));
}

#[test]
fn string_escape_must_be_a_code() {
    assert!(matches!(tokenize("\"a\\xb\""), Err(LexError::PositionedError(3))));
    assert!(matches!(tokenize("\"a\\"), Err(LexError::UnexpectedEndOfInput)));
}

#[test]
fn number_forms() {
    let cases: [(&str, f64); 6] = [
        ("5.", 5.0),
        ("-.5", -0.5),
        ("+.5", 0.5),
        ("5.e2", 500.0),
        ("-0", 0.0),
        ("007", 7.0),
    ];
    for (input, expected) in cases {
        let tokens = tokenize(input).unwrap();
        assert_eq!(tokens.len(), 1);
        match &tokens[0] {
            Token::Number(m, s) => {
                assert_eq!(s.parse::<f64>().unwrap(), expected);
                assert_eq!(m.start, 0);
                assert_eq!(m.end, input.len() - 1);
            },
            _ => panic!("not a number"),
        }
    }
}

#[test]
fn invalid_escape_passes_nothing_through() {
    // Every accepted escape decodes; the decoded text never keeps the
    // backslash.
    let tokens = tokenize("\"\\n\\r\\t\\\\\\0\\\"\"").unwrap();
    assert_eq!(tokens.len(), 1);
    match &tokens[0] {
        Token::String(_, s) => assert_eq!(s, "\n\r\t\\\0\""),
        _ => panic!("not a string"),
    }
}
