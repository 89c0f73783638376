use script_parser::errors::Errors;
use script_parser::lexer::{get_keyword, tokenize, unexpected_chars};
use script_parser::lexer_types::{
    BinaryOperator, BitwiseShift, ComparisonExpr, LogicalExpr, TokenType,
};

#[test]
fn basic_addition() {
    let result = tokenize("12 + 13");
    assert!(result.is_ok());
    let tokens = result.unwrap();

    assert_eq!(tokens[0], TokenType::Int(12));
    assert_eq!(tokens[1], TokenType::BinaryOperator(BinaryOperator::Add));
    assert_eq!(tokens[2], TokenType::Int(13));
}

#[test]
fn missing_values_after_0b_0x_0o() {
    let result1 = tokenize("0b");
    assert!(result1.is_err());
    let err1 = result1.err().unwrap();
    assert_eq!(err1.0, Errors::SyntaxError);
    assert_eq!(err1.1, "Missing value after 0b");

    let result2 = tokenize("0x");
    assert!(result2.is_err());
    let err1 = result2.err().unwrap();
    assert_eq!(err1.0, Errors::SyntaxError);
    assert_eq!(err1.1, "Missing value after 0x");

    let result3 = tokenize("0o");
    assert!(result3.is_err());
    let err1 = result3.err().unwrap();
    assert_eq!(err1.0, Errors::SyntaxError);
    assert_eq!(err1.1, "Missing value after 0o");
}

#[test]
fn multi_dot_number() {
    let result = tokenize("0.0112.0");
    assert!(result.is_err());
    let err = result.err().unwrap();
    assert_eq!(err.0, Errors::SyntaxError);
    assert_eq!(err.1, "Multiple dots in a number");
}

#[test]
fn empty_x_escape() {
    let result = tokenize("\"\\x\"");
    assert!(result.is_err());
    let err = result.err().unwrap();
    assert_eq!(err.0, Errors::SyntaxError);
    assert_eq!(err.1, "Invalid or Missing hex digits after \\x");
}

#[test]
fn invalid_x_escape() {
    let result = tokenize("\"\\xFF\"");
    assert!(result.is_err());
    let err = result.err().unwrap();
    assert_eq!(err.0, Errors::ValueError);
    assert_eq!(err.1, "Invalid value after \\x, \"FF\" is not a valid utf-8 sequence");
}

#[test]
fn unterminated_string() {
    let result = tokenize("\"Hello World");
    assert!(result.is_err());
    let err = result.err().unwrap();
    assert_eq!(err.0, Errors::SyntaxError);
    assert_eq!(err.1, "Unterminated string literal \"Hello World\"");
}

fn tokens(source: &str) -> Vec<TokenType> {
    match tokenize(source) {
        Ok(tokens) => tokens.into_iter().collect(),
        Err(failure) => panic!("{:?}", failure),
    }
}

fn failure(source: &str) -> (Errors, String) {
    match tokenize(source) {
        Ok(tokens) => panic!("{:?}", tokens),
        Err(failure) => failure,
    }
}

fn text(value: &str) -> TokenType {
    TokenType::String(value.to_string())
}

fn word(value: &str) -> TokenType {
    TokenType::Identifier(value.to_string())
}

#[test]
fn addition_ends_with_the_end_marker() {
    assert_eq!(
        tokens("12 + 13"),
        vec![
            TokenType::Int(12),
            TokenType::BinaryOperator(BinaryOperator::Add),
            TokenType::Int(13),
            TokenType::EOF,
        ]
    );
}

#[test]
fn empty_source_is_the_end_marker_alone() {
    assert_eq!(tokens(""), vec![TokenType::EOF]);
    assert_eq!(tokens(" \t\r\n"), vec![TokenType::EOF]);
}

#[test]
fn decimal_literals() {
    assert_eq!(tokens("0"), vec![TokenType::Int(0), TokenType::EOF]);
    assert_eq!(tokens("7"), vec![TokenType::Int(7), TokenType::EOF]);
    assert_eq!(tokens("007"), vec![TokenType::Int(7), TokenType::EOF]);
    assert_eq!(tokens("1234567890"), vec![TokenType::Int(1234567890), TokenType::EOF]);
    assert_eq!(tokens("2147483647"), vec![TokenType::Int(i32::MAX), TokenType::EOF]);
}

#[test]
fn integer_out_of_range() {
    assert_eq!(
        failure("2147483648"),
        (Errors::ValueError, "Integer literal out of range".to_string())
    );
    assert_eq!(
        failure("99999999999999999999999999"),
        (Errors::ValueError, "Integer literal out of range".to_string())
    );
    assert_eq!(
        failure("0xFFFFFFFF"),
        (Errors::ValueError, "Integer literal out of range".to_string())
    );
    assert_eq!(tokens("0x7fffffff"), vec![TokenType::Int(i32::MAX), TokenType::EOF]);
}

#[test]
fn radix_literals() {
    assert_eq!(tokens("0b101"), vec![TokenType::Int(5), TokenType::EOF]);
    assert_eq!(tokens("0x1F"), vec![TokenType::Int(31), TokenType::EOF]);
    assert_eq!(tokens("0xff"), vec![TokenType::Int(255), TokenType::EOF]);
    assert_eq!(tokens("0o17"), vec![TokenType::Int(15), TokenType::EOF]);
    assert_eq!(tokens("0b12"), vec![TokenType::Int(1), TokenType::Int(2), TokenType::EOF]);
    assert_eq!(tokens("0o78"), vec![TokenType::Int(7), TokenType::Int(8), TokenType::EOF]);
    assert_eq!(tokens("0xfg"), vec![TokenType::Int(15), word("g"), TokenType::EOF]);
}

#[test]
fn missing_value_after_a_prefix_before_other_text() {
    assert_eq!(failure("0b2"), (Errors::SyntaxError, "Missing value after 0b".to_string()));
    assert_eq!(failure("0o8"), (Errors::SyntaxError, "Missing value after 0o".to_string()));
    assert_eq!(failure("0x + 1"), (Errors::SyntaxError, "Missing value after 0x".to_string()));
}

#[test]
fn float_literals_keep_their_text() {
    assert_eq!(tokens("1.5"), vec![TokenType::Float("1.5".to_string()), TokenType::EOF]);
    assert_eq!(tokens("0.0112"), vec![TokenType::Float("0.0112".to_string()), TokenType::EOF]);
    assert_eq!(tokens("5."), vec![TokenType::Float("5.".to_string()), TokenType::EOF]);
    assert_eq!(
        tokens("1.5x"),
        vec![TokenType::Float("1.5".to_string()), word("x"), TokenType::EOF]
    );
}

#[test]
fn a_dot_before_a_digit_is_punctuation() {
    assert_eq!(
        tokens(".5"),
        vec![TokenType::Dot, TokenType::Int(5), TokenType::EOF]
    );
}

#[test]
fn multiple_dots_before_a_number_too_large() {
    assert_eq!(
        failure("99999999999.1.2"),
        (Errors::SyntaxError, "Multiple dots in a number".to_string())
    );
}

#[test]
fn punctuation() {
    assert_eq!(
        tokens("( ) { } [ ] : ; , . @"),
        vec![
            TokenType::OpenParen,
            TokenType::ClosedParen,
            TokenType::OpenBrace,
            TokenType::ClosedBrace,
            TokenType::OpenBracket,
            TokenType::ClosedBracket,
            TokenType::Colon,
            TokenType::SemiColon,
            TokenType::Comma,
            TokenType::Dot,
            TokenType::Monkey,
            TokenType::EOF,
        ]
    );
    assert_eq!(
        tokens("(){}"),
        vec![
            TokenType::OpenParen,
            TokenType::ClosedParen,
            TokenType::OpenBrace,
            TokenType::ClosedBrace,
            TokenType::EOF,
        ]
    );
}

#[test]
fn arithmetic_operators() {
    assert_eq!(
        tokens("+-*/%"),
        vec![
            TokenType::BinaryOperator(BinaryOperator::Add),
            TokenType::BinaryOperator(BinaryOperator::Substract),
            TokenType::BinaryOperator(BinaryOperator::Multiply),
            TokenType::BinaryOperator(BinaryOperator::Divide),
            TokenType::BinaryOperator(BinaryOperator::Modulo),
            TokenType::EOF,
        ]
    );
}

#[test]
fn comparison_and_shift_operators() {
    assert_eq!(
        tokens("== != > >= < <= << >> = !"),
        vec![
            TokenType::ComparisonExpr(ComparisonExpr::Equals),
            TokenType::ComparisonExpr(ComparisonExpr::NotEquals),
            TokenType::ComparisonExpr(ComparisonExpr::Greater),
            TokenType::ComparisonExpr(ComparisonExpr::GreaterEqual),
            TokenType::ComparisonExpr(ComparisonExpr::Less),
            TokenType::ComparisonExpr(ComparisonExpr::LessEqual),
            TokenType::BitwiseShift(BitwiseShift::Left),
            TokenType::BitwiseShift(BitwiseShift::Right),
            TokenType::Equals,
            TokenType::Not,
            TokenType::EOF,
        ]
    );
}

#[test]
fn operators_at_the_end_of_the_source() {
    assert_eq!(tokens("!"), vec![TokenType::Not, TokenType::EOF]);
    assert_eq!(tokens("="), vec![TokenType::Equals, TokenType::EOF]);
    assert_eq!(
        tokens(">"),
        vec![TokenType::ComparisonExpr(ComparisonExpr::Greater), TokenType::EOF]
    );
    assert_eq!(
        tokens("<"),
        vec![TokenType::ComparisonExpr(ComparisonExpr::Less), TokenType::EOF]
    );
}

#[test]
fn operators_take_the_longest_form_from_the_left() {
    assert_eq!(
        tokens("==="),
        vec![
            TokenType::ComparisonExpr(ComparisonExpr::Equals),
            TokenType::Equals,
            TokenType::EOF,
        ]
    );
    assert_eq!(
        tokens(">>="),
        vec![TokenType::BitwiseShift(BitwiseShift::Right), TokenType::Equals, TokenType::EOF]
    );
    assert_eq!(
        tokens("<=<"),
        vec![
            TokenType::ComparisonExpr(ComparisonExpr::LessEqual),
            TokenType::ComparisonExpr(ComparisonExpr::Less),
            TokenType::EOF,
        ]
    );
}

#[test]
fn reserved_words() {
    assert_eq!(
        tokens("local const if else else_if callable not and or xor while"),
        vec![
            TokenType::Local,
            TokenType::Const,
            TokenType::If,
            TokenType::Else,
            TokenType::ElseIf,
            TokenType::Callable,
            TokenType::Not,
            TokenType::LogicalExpr(LogicalExpr::And),
            TokenType::LogicalExpr(LogicalExpr::Or),
            TokenType::LogicalExpr(LogicalExpr::Xor),
            TokenType::While,
            TokenType::EOF,
        ]
    );
}

#[test]
fn keyword_table() {
    assert_eq!(get_keyword("local".to_string()), Some(TokenType::Local));
    assert_eq!(get_keyword("const".to_string()), Some(TokenType::Const));
    assert_eq!(get_keyword("if".to_string()), Some(TokenType::If));
    assert_eq!(get_keyword("else".to_string()), Some(TokenType::Else));
    assert_eq!(get_keyword("else_if".to_string()), Some(TokenType::ElseIf));
    assert_eq!(get_keyword("callable".to_string()), Some(TokenType::Callable));
    assert_eq!(get_keyword("not".to_string()), Some(TokenType::Not));
    assert_eq!(get_keyword("and".to_string()), Some(TokenType::LogicalExpr(LogicalExpr::And)));
    assert_eq!(get_keyword("or".to_string()), Some(TokenType::LogicalExpr(LogicalExpr::Or)));
    assert_eq!(get_keyword("xor".to_string()), Some(TokenType::LogicalExpr(LogicalExpr::Xor)));
    assert_eq!(get_keyword("while".to_string()), Some(TokenType::While));
    assert_eq!(get_keyword("Local".to_string()), None);
    assert_eq!(get_keyword("locals".to_string()), None);
    assert_eq!(get_keyword("".to_string()), None);
}

#[test]
fn identifiers() {
    assert_eq!(tokens("x"), vec![word("x"), TokenType::EOF]);
    assert_eq!(tokens("_a1"), vec![word("_a1"), TokenType::EOF]);
    assert_eq!(tokens("locals"), vec![word("locals"), TokenType::EOF]);
    assert_eq!(tokens("If"), vec![word("If"), TokenType::EOF]);
    assert_eq!(tokens("a.b"), vec![word("a"), TokenType::Dot, word("b"), TokenType::EOF]);
}

#[test]
fn a_digit_starts_a_number_not_a_word() {
    assert_eq!(tokens("1abc"), vec![TokenType::Int(1), word("abc"), TokenType::EOF]);
}

#[test]
fn identifiers_beyond_ascii() {
    assert_eq!(tokens("été"), vec![word("été"), TokenType::EOF]);
    assert_eq!(tokens("变量 = 1"), vec![word("变量"), TokenType::Equals, TokenType::Int(1), TokenType::EOF]);
    // An Arabic-Indic digit is alphanumeric, and no decimal digit.
    assert_eq!(tokens("٣"), vec![word("٣"), TokenType::EOF]);
}

#[test]
fn strings_in_either_quote() {
    assert_eq!(tokens("\"Hello World\""), vec![text("Hello World"), TokenType::EOF]);
    assert_eq!(tokens("'Hello'"), vec![text("Hello"), TokenType::EOF]);
    assert_eq!(tokens("\"it's\""), vec![text("it's"), TokenType::EOF]);
    assert_eq!(tokens("'say \"hi\"'"), vec![text("say \"hi\""), TokenType::EOF]);
    assert_eq!(tokens("\"\""), vec![text(""), TokenType::EOF]);
    assert_eq!(tokens("\"a\"\"b\""), vec![text("a"), text("b"), TokenType::EOF]);
}

#[test]
fn strings_keep_white_space_and_marks() {
    assert_eq!(tokens("\" a + b \""), vec![text(" a + b "), TokenType::EOF]);
    assert_eq!(tokens("\"line\nbreak\""), vec![text("line\nbreak"), TokenType::EOF]);
    assert_eq!(tokens("\"`no comment`\""), vec![text("`no comment`"), TokenType::EOF]);
}

#[test]
fn plain_escapes() {
    assert_eq!(tokens(r#""a\\b""#), vec![text("a\\b"), TokenType::EOF]);
    assert_eq!(tokens(r#""a\"b""#), vec![text("a\"b"), TokenType::EOF]);
    assert_eq!(tokens(r#""a\'b""#), vec![text("a'b"), TokenType::EOF]);
    assert_eq!(tokens(r#"'a\'b'"#), vec![text("a'b"), TokenType::EOF]);
    assert_eq!(tokens(r#""a\nb""#), vec![text("a\nb"), TokenType::EOF]);
    assert_eq!(tokens(r#""a\tb""#), vec![text("a\tb"), TokenType::EOF]);
    assert_eq!(tokens(r#""a\rb""#), vec![text("a\rb"), TokenType::EOF]);
}

#[test]
fn unknown_escape_drops_the_backslash() {
    assert_eq!(tokens(r#""a\qb""#), vec![text("aqb"), TokenType::EOF]);
    assert_eq!(tokens(r#""\0""#), vec![text("0"), TokenType::EOF]);
}

#[test]
fn hex_escapes_are_utf8_bytes() {
    assert_eq!(tokens(r#""\x41""#), vec![text("A"), TokenType::EOF]);
    assert_eq!(tokens(r#""\x4142""#), vec![text("AB"), TokenType::EOF]);
    assert_eq!(tokens(r#""\x414243""#), vec![text("ABC"), TokenType::EOF]);
    assert_eq!(tokens(r#""\xC3A9""#), vec![text("é"), TokenType::EOF]);
    assert_eq!(tokens(r#""\xc3a9""#), vec![text("é"), TokenType::EOF]);
    assert_eq!(tokens(r#""\xE282AC""#), vec![text("€"), TokenType::EOF]);
    assert_eq!(tokens(r#""x\x41y""#), vec![text("xAy"), TokenType::EOF]);
}

#[test]
fn hex_escape_takes_six_digits_at_most() {
    assert_eq!(tokens(r#""\x41424344""#), vec![text("ABC44"), TokenType::EOF]);
}

#[test]
fn hex_escape_with_an_odd_number_of_digits() {
    // The digit left over is a byte by itself.
    assert_eq!(tokens(r#""\x4""#), vec![text("\u{4}"), TokenType::EOF]);
    assert_eq!(tokens(r#""\x41a""#), vec![text("A\n"), TokenType::EOF]);
    assert_eq!(tokens(r#""\x7g""#), vec![text("\u{7}g"), TokenType::EOF]);
}

#[test]
fn hex_escape_that_is_not_utf8() {
    assert_eq!(
        failure(r#""\x80""#),
        (
            Errors::ValueError,
            "Invalid value after \\x, \"80\" is not a valid utf-8 sequence".to_string()
        )
    );
    assert_eq!(
        failure(r#""\xC3""#),
        (
            Errors::ValueError,
            "Invalid value after \\x, \"C3\" is not a valid utf-8 sequence".to_string()
        )
    );
    assert_eq!(
        failure(r#""\xc080""#),
        (
            Errors::ValueError,
            "Invalid value after \\x, \"c080\" is not a valid utf-8 sequence".to_string()
        )
    );
    assert_eq!(
        failure(r#""\xEDA080""#),
        (
            Errors::ValueError,
            "Invalid value after \\x, \"EDA080\" is not a valid utf-8 sequence".to_string()
        )
    );
}

#[test]
fn hex_escape_without_digits() {
    let message = "Invalid or Missing hex digits after \\x".to_string();
    assert_eq!(failure(r#""\xg""#), (Errors::SyntaxError, message.clone()));
    assert_eq!(failure(r#""\x"#), (Errors::SyntaxError, message));
}

#[test]
fn unterminated_strings() {
    assert_eq!(
        failure("'abc"),
        (Errors::SyntaxError, "Unterminated string literal \"abc\"".to_string())
    );
    assert_eq!(
        failure("\""),
        (Errors::SyntaxError, "Unterminated string literal \"\"".to_string())
    );
    assert_eq!(
        failure("\"abc'"),
        (Errors::SyntaxError, "Unterminated string literal \"abc'\"".to_string())
    );
    assert_eq!(
        failure(r#""abc\"#),
        (Errors::SyntaxError, "Unterminated string literal \"abc\"".to_string())
    );
    assert_eq!(
        failure(r#""ab\x41"#),
        (Errors::SyntaxError, "Unterminated string literal \"abA\"".to_string())
    );
    assert_eq!(
        failure(r#""a\"b"#),
        (Errors::SyntaxError, "Unterminated string literal \"a\"b\"".to_string())
    );
}

#[test]
fn white_space_at_the_ends_is_trimmed_before_reading() {
    assert_eq!(
        failure("  \"abc  \n"),
        (Errors::SyntaxError, "Unterminated string literal \"abc\"".to_string())
    );
    assert_eq!(
        failure("\u{a0}\"abc\u{2003}\u{3000}"),
        (Errors::SyntaxError, "Unterminated string literal \"abc\"".to_string())
    );
    assert_eq!(tokens("\n\t 1 \r\n"), vec![TokenType::Int(1), TokenType::EOF]);
}

#[test]
fn white_space_separates_tokens() {
    assert_eq!(
        tokens("a\tb\nc\u{a0}d"),
        vec![word("a"), word("b"), word("c"), word("d"), TokenType::EOF]
    );
    assert_eq!(unexpected_chars("a\tb\nc\u{a0}d\u{b}e\u{c}f"), Vec::<char>::new());
}

#[test]
fn comments_are_discarded() {
    assert_eq!(tokens("1 `two` 3"), vec![TokenType::Int(1), TokenType::Int(3), TokenType::EOF]);
    assert_eq!(tokens("``"), vec![TokenType::EOF]);
    assert_eq!(tokens("a`b`c"), vec![word("a"), word("c"), TokenType::EOF]);
    assert_eq!(tokens("` \" `"), vec![TokenType::EOF]);
}

#[test]
fn comment_without_an_end_runs_to_the_end() {
    assert_eq!(tokens("1 ` 2 3"), vec![TokenType::Int(1), TokenType::EOF]);
    assert_eq!(tokens("`"), vec![TokenType::EOF]);
}

#[test]
fn unrecognised_characters_are_passed_over() {
    assert_eq!(
        tokens("1 # 2 $ 3"),
        vec![TokenType::Int(1), TokenType::Int(2), TokenType::Int(3), TokenType::EOF]
    );
    assert_eq!(unexpected_chars("1 # 2 $ 3"), vec!['#', '$']);
    assert_eq!(tokens("a~b"), vec![word("a"), word("b"), TokenType::EOF]);
    assert_eq!(unexpected_chars("a~b?\\^&|"), vec!['~', '?', '\\', '^', '&', '|']);
    assert_eq!(unexpected_chars("\"#\" `$`"), Vec::<char>::new());
    assert_eq!(unexpected_chars("12 + 13"), Vec::<char>::new());
}

#[test]
fn unrecognised_characters_are_listed_up_to_a_failure() {
    assert_eq!(unexpected_chars("# 0b $"), vec!['#']);
    assert_eq!(failure("# 0b $"), (Errors::SyntaxError, "Missing value after 0b".to_string()));
}

#[test]
fn the_first_failure_is_reported() {
    assert_eq!(failure("0x 1.2.3"), (Errors::SyntaxError, "Missing value after 0x".to_string()));
    assert_eq!(
        failure("1.2.3 0x"),
        (Errors::SyntaxError, "Multiple dots in a number".to_string())
    );
}

#[test]
fn a_statement() {
    assert_eq!(
        tokens("local total = price * 0x10 >= limit and not done"),
        vec![
            TokenType::Local,
            word("total"),
            TokenType::Equals,
            word("price"),
            TokenType::BinaryOperator(BinaryOperator::Multiply),
            TokenType::Int(16),
            TokenType::ComparisonExpr(ComparisonExpr::GreaterEqual),
            word("limit"),
            TokenType::LogicalExpr(LogicalExpr::And),
            TokenType::Not,
            word("done"),
            TokenType::EOF,
        ]
    );
}
