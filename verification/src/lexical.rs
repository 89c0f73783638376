use crate::chars::{decimal_char, digit_value, is_digit, whitespace, word_char};
use crate::errors::{Errors, Failure};
use crate::lexer_types::{BinaryOperator, BitwiseShift, ComparisonExpr, LogicalExpr, Token};
use vstd::prelude::*;
use vstd::utf8::{decode_utf8, valid_utf8};

verus! {

/// The text without the white space at its start.
pub open spec fn trim_start(s: Seq<char>) -> Seq<char>
    decreases s.len(),
{
    if s.len() > 0 && whitespace(s.first()) {
        trim_start(s.drop_first())
    } else {
        s
    }
}

/// The text without the white space at its end.
pub open spec fn trim_end(s: Seq<char>) -> Seq<char>
    decreases s.len(),
{
    if s.len() > 0 && whitespace(s.last()) {
        trim_end(s.drop_last())
    } else {
        s
    }
}

/// The text without the white space at either end.
pub open spec fn trim(s: Seq<char>) -> Seq<char> {
    trim_end(trim_start(s))
}

/// The classes of characters of which the tokenizer reads runs.
#[derive(Clone, Copy)]
pub enum CharClass {
    /// The digits of a radix.
    Digit(u32),
    /// Decimal digits and the dot.
    Decimal,
    /// Alphanumeric characters and the underscore.
    Word,
}

/// The character belongs to the class.
pub open spec fn in_class(c: char, class: CharClass) -> bool {
    match class {
        CharClass::Digit(radix) => is_digit(c, radix as nat),
        CharClass::Decimal => decimal_char(c),
        CharClass::Word => word_char(c),
    }
}

/// The end of the longest run of characters of `class` that starts at `i`.
pub open spec fn run_end(s: Seq<char>, i: int, class: CharClass) -> int
    decreases s.len() - i,
{
    if 0 <= i < s.len() && in_class(s[i], class) {
        run_end(s, i + 1, class)
    } else {
        i
    }
}

/// The number that a run of digits denotes in `radix`.
pub open spec fn digits_value(digits: Seq<char>, radix: nat) -> nat
    decreases digits.len(),
{
    if digits.len() == 0 {
        0
    } else {
        let last = match digit_value(digits.last()) {
            Some(v) => v,
            None => 0,
        };
        digits_value(digits.drop_last(), radix) * radix + last
    }
}

/// How often `c` occurs in `s`.
pub open spec fn occurrences(s: Seq<char>, c: char) -> nat
    decreases s.len(),
{
    if s.len() == 0 {
        0
    } else {
        occurrences(s.drop_last(), c) + if s.last() == c {
            1nat
        } else {
            0nat
        }
    }
}

/// What one look at the source gives, with the position to go on from:
/// a token; nothing, for white space and comments; a character that
/// belongs to no token, which is passed over; or a failure.
pub enum Scan {
    Token(Token, int),
    Skip(int),
    Unexpected(char, int),
    Fail(Errors, Seq<char>),
}

/// The punctuation marks that are tokens by themselves.
pub open spec fn punctuation(c: char) -> Option<Token> {
    if c == '(' {
        Some(Token::OpenParen)
    } else if c == ')' {
        Some(Token::ClosedParen)
    } else if c == '{' {
        Some(Token::OpenBrace)
    } else if c == '}' {
        Some(Token::ClosedBrace)
    } else if c == '[' {
        Some(Token::OpenBracket)
    } else if c == ']' {
        Some(Token::ClosedBracket)
    } else if c == ':' {
        Some(Token::Colon)
    } else if c == ';' {
        Some(Token::SemiColon)
    } else if c == ',' {
        Some(Token::Comma)
    } else if c == '.' {
        Some(Token::Dot)
    } else if c == '@' {
        Some(Token::Monkey)
    } else {
        None
    }
}

/// The arithmetic operators, one character each.
pub open spec fn arithmetic(c: char) -> Option<BinaryOperator> {
    if c == '+' {
        Some(BinaryOperator::Add)
    } else if c == '-' {
        Some(BinaryOperator::Substract)
    } else if c == '*' {
        Some(BinaryOperator::Multiply)
    } else if c == '/' {
        Some(BinaryOperator::Divide)
    } else if c == '%' {
        Some(BinaryOperator::Modulo)
    } else {
        None
    }
}

/// The character at position `i` is `c`.
pub open spec fn is_at(s: Seq<char>, i: int, c: char) -> bool {
    0 <= i < s.len() && s[i] == c
}

/// The operators and marks that begin with `!`, `=`, `>` or `<`.
pub open spec fn operator(s: Seq<char>, i: int) -> Option<Scan> {
    let c = s[i];
    if c == '!' {
        if is_at(s, i + 1, '=') {
            Some(Scan::Token(Token::ComparisonExpr(ComparisonExpr::NotEquals), i + 2))
        } else {
            Some(Scan::Token(Token::Not, i + 1))
        }
    } else if c == '=' {
        if is_at(s, i + 1, '=') {
            Some(Scan::Token(Token::ComparisonExpr(ComparisonExpr::Equals), i + 2))
        } else {
            Some(Scan::Token(Token::Equals, i + 1))
        }
    } else if c == '>' {
        if is_at(s, i + 1, '=') {
            Some(Scan::Token(Token::ComparisonExpr(ComparisonExpr::GreaterEqual), i + 2))
        } else if is_at(s, i + 1, '>') {
            Some(Scan::Token(Token::BitwiseShift(BitwiseShift::Right), i + 2))
        } else {
            Some(Scan::Token(Token::ComparisonExpr(ComparisonExpr::Greater), i + 1))
        }
    } else if c == '<' {
        if is_at(s, i + 1, '=') {
            Some(Scan::Token(Token::ComparisonExpr(ComparisonExpr::LessEqual), i + 2))
        } else if is_at(s, i + 1, '<') {
            Some(Scan::Token(Token::BitwiseShift(BitwiseShift::Left), i + 2))
        } else {
            Some(Scan::Token(Token::ComparisonExpr(ComparisonExpr::Less), i + 1))
        }
    } else {
        None
    }
}

/// The position after a comment whose text starts at `i`: after the next
/// backtick, or the end of the source where there is none.
pub open spec fn comment_end(s: Seq<char>, i: int) -> int
    decreases s.len() - i,
{
    if 0 <= i < s.len() {
        if s[i] == '`' {
            i + 1
        } else {
            comment_end(s, i + 1)
        }
    } else {
        i
    }
}

/// The radix that a letter after a leading `0` selects.
pub open spec fn radix_of(c: char) -> Option<u32> {
    if c == 'b' {
        Some(2u32)
    } else if c == 'x' {
        Some(16u32)
    } else if c == 'o' {
        Some(8u32)
    } else {
        None
    }
}

/// The message for a radix prefix that no digit follows.
pub open spec fn missing_value(prefix: char) -> Seq<char> {
    "Missing value after 0"@.push(prefix)
}

/// The message for a decimal literal with more than one dot.
pub open spec fn multiple_dots() -> Seq<char> {
    "Multiple dots in a number"@
}

/// The message for an integer literal beyond 32 bits with a sign.
pub open spec fn out_of_range() -> Seq<char> {
    "Integer literal out of range"@
}

/// The message for `\x` that no hex digit follows.
pub open spec fn missing_hex_digits() -> Seq<char> {
    "Invalid or Missing hex digits after \\x"@
}

/// The message for a hex escape whose bytes are not UTF-8.
pub open spec fn invalid_utf8(digits: Seq<char>) -> Seq<char> {
    "Invalid value after \\x, \""@ + digits + "\" is not a valid utf-8 sequence"@
}

/// The message for a string literal that the source ends in, with what
/// was read of it.
pub open spec fn unterminated(partial: Seq<char>) -> Seq<char> {
    "Unterminated string literal \""@ + partial + "\""@
}

/// The integer token for a run of digits that ends at `next`, where the
/// number fits in 32 bits with a sign.
pub open spec fn integer(digits: Seq<char>, radix: nat, next: int) -> Scan {
    let value = digits_value(digits, radix);
    if value <= i32::MAX {
        Scan::Token(Token::Int(value as i32), next)
    } else {
        Scan::Fail(Errors::ValueError, out_of_range())
    }
}

/// A numeric literal that starts at `i`, where `s[i]` is a decimal digit.
pub open spec fn number(s: Seq<char>, i: int) -> Scan {
    if s[i] == '0' && i + 1 < s.len() && radix_of(s[i + 1]) is Some {
        let radix = radix_of(s[i + 1])->0;
        let end = run_end(s, i + 2, CharClass::Digit(radix));
        if end == i + 2 {
            Scan::Fail(Errors::SyntaxError, missing_value(s[i + 1]))
        } else {
            integer(s.subrange(i + 2, end), radix as nat, end)
        }
    } else {
        let end = run_end(s, i, CharClass::Decimal);
        let text = s.subrange(i, end);
        let dots = occurrences(text, '.');
        if dots > 1 {
            Scan::Fail(Errors::SyntaxError, multiple_dots())
        } else if dots == 1 {
            Scan::Token(Token::Float(text), end)
        } else {
            integer(text, 10, end)
        }
    }
}

/// The reserved words.
pub open spec fn keyword(word: Seq<char>) -> Option<Token> {
    if word == "local"@ {
        Some(Token::Local)
    } else if word == "const"@ {
        Some(Token::Const)
    } else if word == "if"@ {
        Some(Token::If)
    } else if word == "else"@ {
        Some(Token::Else)
    } else if word == "else_if"@ {
        Some(Token::ElseIf)
    } else if word == "callable"@ {
        Some(Token::Callable)
    } else if word == "not"@ {
        Some(Token::Not)
    } else if word == "and"@ {
        Some(Token::LogicalExpr(LogicalExpr::And))
    } else if word == "or"@ {
        Some(Token::LogicalExpr(LogicalExpr::Or))
    } else if word == "xor"@ {
        Some(Token::LogicalExpr(LogicalExpr::Xor))
    } else if word == "while"@ {
        Some(Token::While)
    } else {
        None
    }
}

/// A word that starts at `i`: a reserved word, or else an identifier.
pub open spec fn word(s: Seq<char>, i: int) -> Scan {
    let end = run_end(s, i, CharClass::Word);
    let text = s.subrange(i, end);
    match keyword(text) {
        Some(token) => Scan::Token(token, end),
        None => Scan::Token(Token::Identifier(text), end),
    }
}

/// The character that a backslash and `c` stand for.
pub open spec fn escape(c: char) -> Option<char> {
    if c == '\\' {
        Some('\\')
    } else if c == '"' {
        Some('"')
    } else if c == '\'' {
        Some('\'')
    } else if c == 'n' {
        Some('\n')
    } else if c == 't' {
        Some('\t')
    } else if c == 'r' {
        Some('\r')
    } else {
        None
    }
}

/// The bytes that hex digits give when read in pairs from the left; a
/// digit left over at the end is a byte by itself.
pub open spec fn hex_bytes(digits: Seq<char>) -> Seq<u8>
    decreases digits.len(),
{
    if digits.len() == 0 {
        Seq::empty()
    } else if digits.len() == 1 {
        seq![digits_value(digits, 16) as u8]
    } else {
        seq![digits_value(digits.take(2), 16) as u8] + hex_bytes(digits.skip(2))
    }
}

/// The end of the hex digits of an escape that start at `i`: at most six.
pub open spec fn hex_end(s: Seq<char>, i: int) -> int {
    let limit = if i + 6 <= s.len() {
        i + 6
    } else {
        s.len() as int
    };
    run_end(s.take(limit), i, CharClass::Digit(16))
}

/// The rest of a string literal from position `i` on, where `quote` opened
/// it and `value` is what has been read of it.
pub open spec fn string_body(s: Seq<char>, i: int, quote: char, value: Seq<char>) -> Scan
    decreases s.len() - i,
    via string_body_terminates
{
    if !(0 <= i < s.len()) {
        Scan::Fail(Errors::SyntaxError, unterminated(value))
    } else if s[i] == quote {
        Scan::Token(Token::String(value), i + 1)
    } else if s[i] != '\\' {
        string_body(s, i + 1, quote, value.push(s[i]))
    } else if i + 1 >= s.len() {
        Scan::Fail(Errors::SyntaxError, unterminated(value))
    } else if escape(s[i + 1]) is Some {
        string_body(s, i + 2, quote, value.push(escape(s[i + 1])->0))
    } else if s[i + 1] == 'x' {
        let end = hex_end(s, i + 2);
        if end <= i + 2 {
            Scan::Fail(Errors::SyntaxError, missing_hex_digits())
        } else {
            let digits = s.subrange(i + 2, end);
            if valid_utf8(hex_bytes(digits)) {
                string_body(s, end, quote, value + decode_utf8(hex_bytes(digits)))
            } else {
                Scan::Fail(Errors::ValueError, invalid_utf8(digits))
            }
        }
    } else {
        string_body(s, i + 1, quote, value)
    }
}

#[via_fn]
proof fn string_body_terminates(s: Seq<char>, i: int, quote: char, value: Seq<char>) {
    if 0 <= i && i + 1 < s.len() {
        lemma_hex_end_bounds(s, i + 2);
    }
}

/// What stands at position `i` of the source, where `0 <= i < s.len()`.
pub open spec fn next(s: Seq<char>, i: int) -> Scan {
    let c = s[i];
    if punctuation(c) is Some {
        Scan::Token(punctuation(c)->0, i + 1)
    } else if operator(s, i) is Some {
        operator(s, i)->0
    } else if c == '`' {
        Scan::Skip(comment_end(s, i + 1))
    } else if arithmetic(c) is Some {
        Scan::Token(Token::BinaryOperator(arithmetic(c)->0), i + 1)
    } else if is_digit(c, 10) {
        number(s, i)
    } else if word_char(c) {
        word(s, i)
    } else if c == '"' || c == '\'' {
        string_body(s, i + 1, c, Seq::empty())
    } else if whitespace(c) {
        Scan::Skip(i + 1)
    } else {
        Scan::Unexpected(c, i + 1)
    }
}

/// The result of `first`, then that of the rest of the source.
pub open spec fn followed_by(first: Token, rest: Result<Seq<Token>, Failure>) -> Result<
    Seq<Token>,
    Failure,
> {
    match rest {
        Ok(tokens) => Ok(seq![first] + tokens),
        Err(failure) => Err(failure),
    }
}

/// The tokens of the source from position `i` on, closed by the
/// end-of-input marker, or the first failure met.
pub open spec fn lex_from(s: Seq<char>, i: int) -> Result<Seq<Token>, Failure>
    decreases s.len() - i,
    via lex_from_terminates
{
    if 0 <= i < s.len() {
        match next(s, i) {
            Scan::Token(token, after) => followed_by(token, lex_from(s, after)),
            Scan::Skip(after) => lex_from(s, after),
            Scan::Unexpected(_, after) => lex_from(s, after),
            Scan::Fail(kind, message) => Err((kind, message)),
        }
    } else {
        Ok(seq![Token::EOF])
    }
}

/// What tokenizing a source text gives.
pub open spec fn lex(source: Seq<char>) -> Result<Seq<Token>, Failure> {
    lex_from(trim(source), 0)
}

/// The characters that are passed over from position `i` on, up to the end
/// of the source or the first failure.
pub open spec fn unexpected_from(s: Seq<char>, i: int) -> Seq<char>
    decreases s.len() - i,
    via unexpected_from_terminates
{
    if 0 <= i < s.len() {
        match next(s, i) {
            Scan::Token(_, after) => unexpected_from(s, after),
            Scan::Skip(after) => unexpected_from(s, after),
            Scan::Unexpected(c, after) => seq![c] + unexpected_from(s, after),
            Scan::Fail(_, _) => Seq::empty(),
        }
    } else {
        Seq::empty()
    }
}

/// The characters of a source text that belong to no token and are passed
/// over when it is tokenized, in their order.
pub open spec fn unexpected(source: Seq<char>) -> Seq<char> {
    unexpected_from(trim(source), 0)
}

/// A run ends at or after its start, within the text.
pub proof fn lemma_run_end_bounds(s: Seq<char>, i: int, class: CharClass)
    requires
        0 <= i <= s.len(),
    ensures
        i <= run_end(s, i, class) <= s.len(),
    decreases s.len() - i,
{
    if i < s.len() && in_class(s[i], class) {
        lemma_run_end_bounds(s, i + 1, class);
    }
}

/// A comment ends at or after its start, within the text.
pub proof fn lemma_comment_end_bounds(s: Seq<char>, i: int)
    requires
        0 <= i <= s.len(),
    ensures
        i <= comment_end(s, i) <= s.len(),
    decreases s.len() - i,
{
    if i < s.len() && s[i] != '`' {
        lemma_comment_end_bounds(s, i + 1);
    }
}

/// The hex digits of an escape end within the text, after six at most.
pub proof fn lemma_hex_end_bounds(s: Seq<char>, i: int)
    requires
        0 <= i <= s.len(),
    ensures
        i <= hex_end(s, i) <= s.len(),
        hex_end(s, i) <= i + 6,
{
    let limit = if i + 6 <= s.len() {
        i + 6
    } else {
        s.len() as int
    };
    lemma_run_end_bounds(s.take(limit), i, CharClass::Digit(16));
}

/// A string literal that is closed ends after the position it was read from.
pub proof fn lemma_string_body_advances(s: Seq<char>, i: int, quote: char, value: Seq<char>)
    requires
        0 <= i <= s.len(),
    ensures
        string_body(s, i, quote, value) matches Scan::Token(_, after) ==> i < after <= s.len(),
        !(string_body(s, i, quote, value) is Skip),
        !(string_body(s, i, quote, value) is Unexpected),
    decreases s.len() - i,
{
    if i < s.len() && s[i] != quote {
        if s[i] != '\\' {
            lemma_string_body_advances(s, i + 1, quote, value.push(s[i]));
        } else if i + 1 < s.len() {
            if escape(s[i + 1]) is Some {
                lemma_string_body_advances(s, i + 2, quote, value.push(escape(s[i + 1])->0));
            } else if s[i + 1] == 'x' {
                let end = hex_end(s, i + 2);
                let digits = s.subrange(i + 2, end);
                lemma_hex_end_bounds(s, i + 2);
                if end > i + 2 && valid_utf8(hex_bytes(digits)) {
                    lemma_string_body_advances(
                        s,
                        end,
                        quote,
                        value + decode_utf8(hex_bytes(digits)),
                    );
                }
            } else {
                lemma_string_body_advances(s, i + 1, quote, value);
            }
        }
    }
}

/// Every look at the source that does not fail moves on, and stays within
/// the source.
pub proof fn lemma_next_advances(s: Seq<char>, i: int)
    requires
        0 <= i < s.len(),
    ensures
        next(s, i) matches Scan::Token(_, after) ==> i < after <= s.len(),
        next(s, i) matches Scan::Skip(after) ==> i < after <= s.len(),
        next(s, i) matches Scan::Unexpected(_, after) ==> i < after <= s.len(),
{
    let c = s[i];
    lemma_comment_end_bounds(s, i + 1);
    lemma_run_end_bounds(s, i, CharClass::Decimal);
    lemma_run_end_bounds(s, i + 1, CharClass::Decimal);
    lemma_run_end_bounds(s, i + 1, CharClass::Word);
    if i + 1 < s.len() && radix_of(s[i + 1]) is Some {
        lemma_run_end_bounds(s, i + 2, CharClass::Digit(radix_of(s[i + 1])->0));
    }
    lemma_string_body_advances(s, i + 1, c, Seq::empty());
}

#[via_fn]
proof fn lex_from_terminates(s: Seq<char>, i: int) {
    if 0 <= i < s.len() {
        lemma_next_advances(s, i);
    }
}

#[via_fn]
proof fn unexpected_from_terminates(s: Seq<char>, i: int) {
    if 0 <= i < s.len() {
        lemma_next_advances(s, i);
    }
}

} // verus!
