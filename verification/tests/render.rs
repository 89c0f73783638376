use script_parser::lexer::tokenize;
use script_parser::lexer_types::{BinaryOperator, BitwiseShift, ComparisonExpr, LogicalExpr, TokenType};
use script_parser::render::render_tokens;
use std::collections::VecDeque;

fn queue(tokens: Vec<TokenType>) -> VecDeque<TokenType> {
    tokens.into_iter().collect()
}

fn round_trip(tokens: Vec<TokenType>) -> String {
    let tokens = queue(tokens);
    let text = render_tokens(&tokens).expect("renderable");
    assert_eq!(tokenize(&text), Ok(tokens));
    text
}

#[test]
fn rendering_of_an_addition() {
    assert_eq!(
        round_trip(vec![
            TokenType::Int(12),
            TokenType::BinaryOperator(BinaryOperator::Add),
            TokenType::Int(13),
            TokenType::EOF,
        ]),
        "12 + 13"
    );
}

#[test]
fn rendering_of_the_end_marker_alone() {
    assert_eq!(round_trip(vec![TokenType::EOF]), "");
}

#[test]
fn rendering_of_numbers() {
    assert_eq!(round_trip(vec![TokenType::Int(0), TokenType::EOF]), "0");
    assert_eq!(round_trip(vec![TokenType::Int(9), TokenType::EOF]), "9");
    assert_eq!(round_trip(vec![TokenType::Int(10), TokenType::EOF]), "10");
    assert_eq!(round_trip(vec![TokenType::Int(1203), TokenType::EOF]), "1203");
    assert_eq!(round_trip(vec![TokenType::Int(i32::MAX), TokenType::EOF]), "2147483647");
    assert_eq!(
        round_trip(vec![TokenType::Float("0.5".to_string()), TokenType::EOF]),
        "0.5"
    );
}

#[test]
fn rendering_of_strings() {
    assert_eq!(round_trip(vec![TokenType::String("".to_string()), TokenType::EOF]), "\"\"");
    assert_eq!(
        round_trip(vec![TokenType::String("a \"b\" \\ 'c'".to_string()), TokenType::EOF]),
        "\"a \\\"b\\\" \\\\ 'c'\""
    );
    assert_eq!(
        round_trip(vec![TokenType::String(" line\nbreak\t".to_string()), TokenType::EOF]),
        "\" line\nbreak\t\""
    );
    assert_eq!(
        round_trip(vec![TokenType::String("é€`".to_string()), TokenType::EOF]),
        "\"é€`\""
    );
}

#[test]
fn rendering_of_every_mark_and_word() {
    let text = round_trip(vec![
        TokenType::Callable,
        TokenType::Const,
        TokenType::Local,
        TokenType::BinaryOperator(BinaryOperator::Add),
        TokenType::BinaryOperator(BinaryOperator::Substract),
        TokenType::BinaryOperator(BinaryOperator::Multiply),
        TokenType::BinaryOperator(BinaryOperator::Divide),
        TokenType::BinaryOperator(BinaryOperator::Modulo),
        TokenType::BitwiseShift(BitwiseShift::Left),
        TokenType::BitwiseShift(BitwiseShift::Right),
        TokenType::Equals,
        TokenType::If,
        TokenType::Else,
        TokenType::ElseIf,
        TokenType::While,
        TokenType::LogicalExpr(LogicalExpr::And),
        TokenType::LogicalExpr(LogicalExpr::Or),
        TokenType::LogicalExpr(LogicalExpr::Xor),
        TokenType::Not,
        TokenType::ComparisonExpr(ComparisonExpr::Equals),
        TokenType::ComparisonExpr(ComparisonExpr::NotEquals),
        TokenType::ComparisonExpr(ComparisonExpr::Greater),
        TokenType::ComparisonExpr(ComparisonExpr::GreaterEqual),
        TokenType::ComparisonExpr(ComparisonExpr::Less),
        TokenType::ComparisonExpr(ComparisonExpr::LessEqual),
        TokenType::OpenParen,
        TokenType::ClosedParen,
        TokenType::OpenBrace,
        TokenType::ClosedBrace,
        TokenType::OpenBracket,
        TokenType::ClosedBracket,
        TokenType::Comma,
        TokenType::Dot,
        TokenType::Colon,
        TokenType::SemiColon,
        TokenType::Monkey,
        TokenType::Identifier("_x1".to_string()),
        TokenType::EOF,
    ]);
    assert_eq!(
        text,
        "callable const local + - * / % << >> = if else else_if while and or xor ! == != > >= \
         < <= ( ) { } [ ] , . : ; @ _x1"
    );
}

#[test]
fn rendering_of_what_was_tokenized() {
    let tokens = tokenize("if a.b(1,2)>=0x10{local s='it\\'s'}").ok().unwrap();
    let text = render_tokens(&tokens).expect("renderable");
    assert_eq!(text, "if a . b ( 1 , 2 ) >= 16 { local s = \"it's\" }");
    assert_eq!(tokenize(&text), Ok(tokens));
}

#[test]
fn what_cannot_be_rendered() {
    assert_eq!(render_tokens(&queue(vec![])), None);
    assert_eq!(render_tokens(&queue(vec![TokenType::Int(1)])), None);
    assert_eq!(render_tokens(&queue(vec![TokenType::EOF, TokenType::EOF])), None);
    assert_eq!(render_tokens(&queue(vec![TokenType::Int(-1), TokenType::EOF])), None);
    for name in ["", "1a", "a b", "a-b", "if", "while", "a\u{a0}"] {
        let tokens = queue(vec![TokenType::Identifier(name.to_string()), TokenType::EOF]);
        assert_eq!(render_tokens(&tokens), None, "{:?}", name);
    }
    for text in ["", "1", ".5", "1.2.3", "1e5", "1.5 ", "-1.5"] {
        let tokens = queue(vec![TokenType::Float(text.to_string()), TokenType::EOF]);
        assert_eq!(render_tokens(&tokens), None, "{:?}", text);
    }
}
