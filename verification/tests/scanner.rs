use rlox::number::{Number, INFINITY_BITS, MAX_DECIMAL_LENGTH};
use rlox::scanner::{
    is_ascii_alpha, is_ascii_alphanumeric, keyword, number_token, scan, scan_ascii,
    scan_ascii_line, scan_input, Lexed, Literal, ScanError, Token, TokenError, TokenErrorType,
    TokenType,
};

fn kinds(source: &str) -> Vec<TokenType> {
    match scan(source) {
        Ok(tokens) => tokens.iter().map(|t| t.token_type).collect(),
        Err(_) => panic!("scan failed"),
    }
}

#[test]
fn scan_non_ascii_fails() {
    let source = "var x = âŠ¥";
    assert!(matches!(scan(source), Err(ScanError::NonAsciiCharacterFound)));
}

#[test]
fn scan_unterminated_string_fails() {
    let source = "\"hello world";
    assert!(scan(source).is_err());
}

#[test]
fn scan_two_line_string_fails() {
    let source = "\"hello world\n\"";
    assert!(scan(source).is_err());
}

#[test]
fn scan_unexpected_character_fails() {
    let source = "^";
    assert!(scan(source).is_err());
}

#[test]
fn scan_valid_tokens() {
    let source = "
            var x = 10;
            var y = 20;
            var z = nil;
            if (x > y) {
                z = x - y;
            }
            else {
                z = x + y;
            }
            var w = x * y;

            while (w > 0) {
                w = w - 1;
            }

            var logicals = true or false and true;
            var comma = 1, 2, (5 + 3);

            class A {
                fun f() { }
            }
        ";
    assert!(scan(source).is_ok());
}

#[test]
fn scan_invalid_code_reports_correct_position() {
    let source = "var x = 0;\nvar y = 2;\nx = x & y;";
    let result = scan(source);

    assert!(result.is_err());

    if let Err(e) = result {
        assert!(matches!(e, ScanError::TokenError(_)));

        if let ScanError::TokenError(v) = e {
            assert!(v.len() == 1);

            let TokenError { line, column, error } = v[0];
            assert!(line == 3);
            assert!(column == 7);
            assert!(error == TokenErrorType::UnexpectedCharacter);
        }
    }
}

#[test]
fn scan_empty_source_has_no_tokens() {
    assert_eq!(scan("").ok().map(|t| t.len()), Some(0));
    assert_eq!(scan("\n\n").ok().map(|t| t.len()), Some(0));
    assert_eq!(scan("   \t \r\n // only a comment").ok().map(|t| t.len()), Some(0));
}

#[test]
fn scan_every_single_character_token() {
    assert_eq!(
        kinds("(){},.-+;/*"),
        vec![
            TokenType::LeftParen,
            TokenType::RightParen,
            TokenType::LeftBrace,
            TokenType::RightBrace,
            TokenType::Comma,
            TokenType::Dot,
            TokenType::Minus,
            TokenType::Plus,
            TokenType::Semicolon,
            TokenType::Slash,
            TokenType::Star,
        ]
    );
}

#[test]
fn scan_prefers_two_character_operators() {
    assert_eq!(
        kinds("! != = == < <= > >="),
        vec![
            TokenType::Bang,
            TokenType::BangEqual,
            TokenType::Equal,
            TokenType::EqualEqual,
            TokenType::Less,
            TokenType::LessEqual,
            TokenType::Greater,
            TokenType::GreaterEqual,
        ]
    );
    assert_eq!(
        kinds("==="),
        vec![TokenType::EqualEqual, TokenType::Equal]
    );
    let tokens = scan("a<=b").ok().unwrap();
    assert_eq!(tokens[1].lexeme, "<=");
    assert_eq!(tokens[1].column, 2);
    assert_eq!(tokens[2].column, 4);
}

#[test]
fn scan_all_keywords() {
    let source = "and class else false fun for if nil or print return break super this true var while";
    assert_eq!(
        kinds(source),
        vec![
            TokenType::And,
            TokenType::Class,
            TokenType::Else,
            TokenType::False,
            TokenType::Fun,
            TokenType::For,
            TokenType::If,
            TokenType::Nil,
            TokenType::Or,
            TokenType::Print,
            TokenType::Return,
            TokenType::Break,
            TokenType::Super,
            TokenType::This,
            TokenType::True,
            TokenType::Var,
            TokenType::While,
        ]
    );
    assert_eq!(keyword("while"), Some(TokenType::While));
    assert_eq!(keyword("whiles"), None);
    assert_eq!(keyword("Nil"), None);
    assert_eq!(keyword(""), None);
}

#[test]
fn scan_identifiers() {
    let tokens = scan("_x1 orchid classy F_2").ok().unwrap();
    assert_eq!(tokens.len(), 4);
    for t in tokens.iter() {
        assert_eq!(t.token_type, TokenType::Identifier);
        assert!(t.literal.is_none());
    }
    assert_eq!(tokens[0].lexeme, "_x1");
    assert_eq!(tokens[1].lexeme, "orchid");
    assert_eq!(tokens[3].lexeme, "F_2");
    assert_eq!(tokens[3].column, 19);
}

fn number_of(token: &Token) -> f64 {
    match &token.literal {
        Some(Literal::Number(n)) => f64::from_bits(n.bits),
        _ => panic!("no number"),
    }
}

#[test]
fn scan_numbers_have_their_value() {
    let tokens = scan("12.5 0 007 3.14159 123456789012345678901234567890 0.1").ok().unwrap();
    assert_eq!(tokens.len(), 6);
    assert_eq!(number_of(&tokens[0]), 12.5);
    assert_eq!(number_of(&tokens[1]), 0.0);
    assert_eq!(number_of(&tokens[2]), 7.0);
    assert_eq!(number_of(&tokens[3]), 3.14159);
    assert_eq!(number_of(&tokens[4]), 123456789012345678901234567890.0);
    assert_eq!(number_of(&tokens[5]), 0.1);
    assert_eq!(tokens[0].lexeme, "12.5");
    assert_eq!(tokens[2].lexeme, "007");
}

#[test]
fn scan_trailing_dot_is_not_part_of_a_number() {
    assert_eq!(kinds("1."), vec![TokenType::Number, TokenType::Dot]);
    assert_eq!(
        kinds("1.x"),
        vec![TokenType::Number, TokenType::Dot, TokenType::Identifier]
    );
    assert_eq!(
        kinds("1.2.3"),
        vec![TokenType::Number, TokenType::Dot, TokenType::Number]
    );
    assert_eq!(kinds(".5"), vec![TokenType::Dot, TokenType::Number]);
    let tokens = scan("1.2.3").ok().unwrap();
    assert_eq!(tokens[0].lexeme, "1.2");
    assert_eq!(number_of(&tokens[2]), 3.0);
}

#[test]
fn scan_string_keeps_quotes_in_lexeme_only() {
    let tokens = scan("  \"hi there\" \"\"").ok().unwrap();
    assert_eq!(tokens.len(), 2);
    assert_eq!(tokens[0].token_type, TokenType::String);
    assert_eq!(tokens[0].lexeme, "\"hi there\"");
    assert!(matches!(&tokens[0].literal, Some(Literal::String(s)) if s == "hi there"));
    assert_eq!(tokens[0].line, 1);
    assert_eq!(tokens[0].column, 3);
    assert_eq!(tokens[1].lexeme, "\"\"");
    assert!(matches!(&tokens[1].literal, Some(Literal::String(s)) if s.is_empty()));
}

#[test]
fn scan_unterminated_string_is_reported_at_its_opening_quote() {
    match scan("var s = \"abc") {
        Err(ScanError::TokenError(errors)) => {
            assert_eq!(errors.len(), 1);
            assert_eq!(errors[0].line, 1);
            assert_eq!(errors[0].column, 9);
            assert_eq!(errors[0].error, TokenErrorType::UnterminatedString);
        }
        _ => panic!("expected an unterminated string"),
    }
}

#[test]
fn scan_collects_errors_of_all_lines() {
    match scan("a @ b #\nok;\n  \"open") {
        Err(ScanError::TokenError(errors)) => {
            assert_eq!(errors.len(), 3);
            assert_eq!((errors[0].line, errors[0].column), (1, 3));
            assert_eq!((errors[1].line, errors[1].column), (1, 7));
            assert_eq!((errors[2].line, errors[2].column), (3, 3));
            assert_eq!(errors[0].error, TokenErrorType::UnexpectedCharacter);
            assert_eq!(errors[2].error, TokenErrorType::UnterminatedString);
        }
        _ => panic!("expected token errors"),
    }
}

#[test]
fn scan_comment_runs_to_the_end_of_its_line() {
    assert_eq!(
        kinds("a // b c d\n/ e // f"),
        vec![TokenType::Identifier, TokenType::Slash, TokenType::Identifier]
    );
    let tokens = scan("a // b\nc").ok().unwrap();
    assert_eq!((tokens[1].line, tokens[1].column), (2, 1));
}

#[test]
fn scan_positions_count_from_one() {
    let tokens = scan("(\n  +").ok().unwrap();
    assert_eq!((tokens[0].line, tokens[0].column), (1, 1));
    assert_eq!((tokens[1].line, tokens[1].column), (2, 3));
}

#[test]
fn scan_ascii_line_follows_line_number() {
    let tokens = scan_ascii_line(4, "x = 1;").ok().unwrap();
    assert_eq!(tokens.len(), 4);
    assert_eq!(tokens[0].line, 5);
    assert_eq!(tokens[3].column, 6);
    let errors = scan_ascii_line(0, "x ? 1 ?").err().unwrap();
    assert_eq!(errors.len(), 2);
    assert_eq!(errors[1].column, 7);
    assert!(scan_ascii("a\nb").is_ok());
}

#[test]
fn scan_input_gives_tokens_or_the_errors() {
    assert_eq!(scan_input("1 + 2").ok().map(|t| t.len()), Some(3));
    assert!(matches!(scan_input("1 $ 2"), Err(ScanError::TokenError(e)) if e.len() == 1));
    assert!(matches!(scan_input("é"), Err(ScanError::NonAsciiCharacterFound)));
}

#[test]
fn token_constructors_build_the_lexeme() {
    let t = Token::single_character(TokenType::Plus, '+', 3, 9);
    assert_eq!(t.lexeme, "+");
    assert_eq!((t.line, t.column), (3, 9));
    assert!(t.literal.is_none());
    let t = Token::two_character(TokenType::BangEqual, '!', '=', 1, 2);
    assert_eq!(t.lexeme, "!=");
    assert_eq!(t.token_type, TokenType::BangEqual);
}

#[test]
fn letters_and_digits_are_told_apart() {
    assert!(is_ascii_alpha('a'));
    assert!(is_ascii_alpha('Z'));
    assert!(is_ascii_alpha('_'));
    assert!(!is_ascii_alpha('0'));
    assert!(!is_ascii_alpha('-'));
    assert!(is_ascii_alphanumeric('0'));
    assert!(is_ascii_alphanumeric('9'));
    assert!(is_ascii_alphanumeric('q'));
    assert!(!is_ascii_alphanumeric(' '));
    assert!(!is_ascii_alphanumeric('é'));
}

#[test]
fn number_comparisons_follow_the_values() {
    let n = |x: f64| Number::from_bits(x.to_bits());
    assert!(n(1.0).less_than(n(2.0)));
    assert!(!n(2.0).less_than(n(1.0)));
    assert!(n(-2.0).less_than(n(-1.0)));
    assert!(n(-1.0).less_than(n(0.5)));
    assert!(!n(0.0).less_than(n(-0.0)));
    assert!(!n(-0.0).less_than(n(0.0)));
    assert!(n(0.0).equals(n(-0.0)));
    assert!(!n(f64::NAN).equals(n(f64::NAN)));
    assert!(!n(f64::NAN).less_than(n(1.0)));
    assert!(!n(1.0).less_or_equal(n(f64::NAN)));
    assert!(n(1.0).less_or_equal(n(1.0)));
    assert!(n(f64::NEG_INFINITY).less_than(n(f64::MAX)));
    assert!(n(0.0).zero());
    assert!(n(-0.0).zero());
    assert!(!n(5e-324).zero());
    assert!(n(f64::NAN).not_a_number());
    assert!(!n(f64::INFINITY).not_a_number());
    assert_eq!(f64::from_bits(n(1.5).negate().bits), -1.5);
    assert_eq!(n(0.0).negate().bits, (-0.0f64).to_bits());
}

#[test]
fn number_arithmetic_rounds_as_doubles_do() {
    let n = |x: f64| Number::from_bits(x.to_bits());
    let v = |x: Number| f64::from_bits(x.bits);
    assert_eq!(v(n(0.1).plus(n(0.2))), 0.1 + 0.2);
    assert_eq!(v(n(1.0).minus(n(0.9))), 1.0 - 0.9);
    assert_eq!(v(n(1.1).times(n(1.1))), 1.1 * 1.1);
    assert_eq!(v(n(1.0).divided_by(n(3.0))), 1.0 / 3.0);
    assert_eq!(v(n(1e308).times(n(10.0))), f64::INFINITY);
    assert!(v(n(f64::INFINITY).minus(n(f64::INFINITY))).is_nan());
    assert_eq!(v(n(7.0).plus(n(0.0))), 7.0);
    assert_eq!(Number::from_decimal("12.5").map(v), Some(12.5));
    assert_eq!(Number::from_decimal("0.30000000000000004").map(v), Some(0.30000000000000004));
}

#[test]
fn keyword_of_text_outside_ascii_is_none() {
    assert_eq!(keyword("é"), None);
    assert_eq!(keyword("thïs"), None);
}

#[test]
fn only_decimal_numerals_have_a_value() {
    let v = |x: Number| f64::from_bits(x.bits);
    assert_eq!(Number::from_decimal("0").map(v), Some(0.0));
    assert_eq!(Number::from_decimal("007").map(v), Some(7.0));
    assert_eq!(Number::from_decimal("12.50").map(v), Some(12.5));
    assert_eq!(Number::from_decimal("123456789012345678901234567890").map(v), Some(1.2345678901234568e29));
    for text in [
        "", ".", ".5", "5.", "1.2.3", "1..2", "-1", "+1", "1e5", "1E5", "0x10", "0x1p0", "0X1P0",
        "inf", "-inf", "Inf", "INFINITY", "nan", "NaN", "snan", "nan(1)", " 1", "1 ", "1_000",
        "١٢", "1,5",
    ] {
        assert_eq!(Number::from_decimal(text), None, "{text:?}");
    }
}

#[test]
fn a_long_numeral_has_a_value() {
    let v = |x: Number| f64::from_bits(x.bits);
    assert_eq!(Number::from_decimal(&"1".repeat(65_537)).map(v), Some(f64::INFINITY));
    let zeros = format!("0.{}", "0".repeat(100_000));
    assert_eq!(Number::from_decimal(&zeros).map(v), Some(0.0));
    let small = format!("0.{}1", "0".repeat(100_000));
    assert_eq!(Number::from_decimal(&small).map(v), Some(0.0));
    let third = format!("0.{}", "3".repeat(2000));
    assert_eq!(Number::from_decimal(&third).map(v), Some(1.0 / 3.0));
    let big = format!("{}.5", "9".repeat(400));
    assert_eq!(Number::from_decimal(&big).map(v), Some(f64::INFINITY));
    let padded = format!("{}12.5{}", "0".repeat(70_000), "0".repeat(70_000));
    assert_eq!(Number::from_decimal(&padded).map(v), Some(12.5));
}

#[test]
fn a_numeral_of_zeros_is_positive_zero() {
    for text in ["0", "00", "0.0", "000.000", "0.00000000000000000000"] {
        assert_eq!(Number::from_decimal(text), Some(Number::from_bits(0)), "{text:?}");
    }
    assert_eq!(Number::from_decimal(&"0".repeat(65_537)), Some(Number::from_bits(0)));
}

#[test]
fn a_numeral_beyond_what_the_converter_counts_has_no_value() {
    let mut text = "1".repeat(MAX_DECIMAL_LENGTH);
    assert_eq!(Number::from_decimal(&text), Some(Number::from_bits(INFINITY_BITS)));
    text.push('1');
    assert_eq!(Number::from_decimal(&text), None);
}

#[test]
fn a_long_number_is_a_token() {
    let line = format!("x = {};", "7".repeat(65_537));
    match scan_ascii_line(0, &line) {
        Ok(tokens) => {
            assert_eq!(tokens.len(), 4);
            assert_eq!(tokens[2].token_type, TokenType::Number);
            assert_eq!(tokens[2].lexeme.len(), 65_537);
            assert!(matches!(
                tokens[2].literal,
                Some(Literal::Number(n)) if n.bits == INFINITY_BITS
            ));
        },
        Err(_) => panic!("the number has a value"),
    }
    let source = "7".repeat(65_537);
    assert!(matches!(scan(&source), Ok(tokens) if tokens.len() == 1));
}

#[test]
fn a_number_token_carries_the_value_it_is_given() {
    let seven = Number::from_bits(7.0f64.to_bits());
    match number_token("7.0".to_owned(), 3, 9, Some(seven)) {
        Lexed::Token(t) => {
            assert_eq!(t.token_type, TokenType::Number);
            assert_eq!(t.lexeme, "7.0");
            assert!(matches!(t.literal, Some(Literal::Number(n)) if n == seven));
            assert_eq!((t.line, t.column), (3, 9));
        },
        _ => panic!("a value makes a token"),
    }
    match number_token("7.0".to_owned(), 3, 9, None) {
        Lexed::Error(e) => {
            assert_eq!(e.error, TokenErrorType::UnexpectedCharacter);
            assert_eq!((e.line, e.column), (3, 9));
        },
        _ => panic!("no value makes an error"),
    }
}
