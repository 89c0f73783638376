use vstd::prelude::*;

verus! {

/// The logical operators.
#[derive(Debug, PartialEq, Eq, Clone, Copy, Structural)]
pub enum LogicalExpr {
    And,
    Or,
    Xor,
}

/// The comparison operators.
#[derive(Debug, PartialEq, Eq, Clone, Copy, Structural)]
pub enum ComparisonExpr {
    Equals,
    NotEquals,
    Greater,
    GreaterEqual,
    Less,
    LessEqual,
}

/// The arithmetic operators.
#[derive(Debug, PartialEq, Eq, Clone, Copy, Structural)]
pub enum BinaryOperator {
    Add,
    Substract,
    Multiply,
    Divide,
    Modulo,
}

/// The directions of a bitwise shift.
#[derive(Debug, PartialEq, Eq, Clone, Copy, Structural)]
pub enum BitwiseShift {
    Left,
    Right,
}

/// One lexical unit of the source text.
///
/// A `Float` keeps the literal as it was written (decimal digits around a
/// single dot); turning it into a machine number is left to the caller.
#[derive(Debug, PartialEq, Clone)]
pub enum TokenType {
    String(String),
    Int(i32),
    Float(String),
    Identifier(String),
    Callable,
    Const,
    Local,
    BinaryOperator(BinaryOperator),
    BitwiseShift(BitwiseShift),
    Equals,
    If,
    Else,
    ElseIf,
    While,
    LogicalExpr(LogicalExpr),
    Not,
    ComparisonExpr(ComparisonExpr),
    OpenParen,
    ClosedParen,
    OpenBrace,
    ClosedBrace,
    OpenBracket,
    ClosedBracket,
    Comma,
    Dot,
    Colon,
    SemiColon,
    Monkey,
    EOF,
}

/// The mathematical value of a [`TokenType`]: the same variants, with text
/// held as a sequence of characters.
pub enum Token {
    String(Seq<char>),
    Int(i32),
    Float(Seq<char>),
    Identifier(Seq<char>),
    Callable,
    Const,
    Local,
    BinaryOperator(BinaryOperator),
    BitwiseShift(BitwiseShift),
    Equals,
    If,
    Else,
    ElseIf,
    While,
    LogicalExpr(LogicalExpr),
    Not,
    ComparisonExpr(ComparisonExpr),
    OpenParen,
    ClosedParen,
    OpenBrace,
    ClosedBrace,
    OpenBracket,
    ClosedBracket,
    Comma,
    Dot,
    Colon,
    SemiColon,
    Monkey,
    EOF,
}

impl View for TokenType {
    type V = Token;

    open spec fn view(&self) -> Token {
        match self {
            TokenType::String(text) => Token::String(text@),
            TokenType::Int(value) => Token::Int(*value),
            TokenType::Float(text) => Token::Float(text@),
            TokenType::Identifier(name) => Token::Identifier(name@),
            TokenType::Callable => Token::Callable,
            TokenType::Const => Token::Const,
            TokenType::Local => Token::Local,
            TokenType::BinaryOperator(operator) => Token::BinaryOperator(*operator),
            TokenType::BitwiseShift(direction) => Token::BitwiseShift(*direction),
            TokenType::Equals => Token::Equals,
            TokenType::If => Token::If,
            TokenType::Else => Token::Else,
            TokenType::ElseIf => Token::ElseIf,
            TokenType::While => Token::While,
            TokenType::LogicalExpr(operator) => Token::LogicalExpr(*operator),
            TokenType::Not => Token::Not,
            TokenType::ComparisonExpr(operator) => Token::ComparisonExpr(*operator),
            TokenType::OpenParen => Token::OpenParen,
            TokenType::ClosedParen => Token::ClosedParen,
            TokenType::OpenBrace => Token::OpenBrace,
            TokenType::ClosedBrace => Token::ClosedBrace,
            TokenType::OpenBracket => Token::OpenBracket,
            TokenType::ClosedBracket => Token::ClosedBracket,
            TokenType::Comma => Token::Comma,
            TokenType::Dot => Token::Dot,
            TokenType::Colon => Token::Colon,
            TokenType::SemiColon => Token::SemiColon,
            TokenType::Monkey => Token::Monkey,
            TokenType::EOF => Token::EOF,
        }
    }
}

impl DeepView for TokenType {
    type V = Token;

    open spec fn deep_view(&self) -> Token {
        self.view()
    }
}

/// A token sequence as the tokenizer hands it over: it ends with the
/// end-of-input marker, and that marker occurs nowhere else.
pub open spec fn well_formed(tokens: Seq<Token>) -> bool {
    &&& tokens.len() > 0
    &&& tokens.last() is EOF
    &&& forall|i: int| 0 <= i < tokens.len() - 1 ==> !(#[trigger] tokens[i] is EOF)
}

} // verus!
