use crate::chars::{
    decimal_char, is_decimal_char, is_digit, is_radix_digit, is_space, is_word_char,
    whitespace, word_char,
};
use crate::lexer::{count_char, get_keyword};
use crate::errors::Failure;
use crate::lexical::{keyword, lex, occurrences};
use crate::render_laws::lemma_render_round_trip;
use crate::lexer_types::{
    well_formed, BinaryOperator, BitwiseShift, ComparisonExpr, LogicalExpr, Token, TokenType,
};
use crate::text::chars_of;
use std::collections::VecDeque;
use vstd::prelude::*;

verus! {

/// The character of a decimal digit.
pub open spec fn digit_char(digit: nat) -> char {
    (digit + 48) as char
}

/// A number in decimal digits.
pub open spec fn decimal(n: nat) -> Seq<char>
    decreases n,
{
    if n < 10 {
        seq![digit_char(n)]
    } else {
        decimal(n / 10).push(digit_char(n % 10))
    }
}

/// The content of a string literal in double quotes: a backslash before
/// each backslash and each double quote.
pub open spec fn escaped(text: Seq<char>) -> Seq<char>
    decreases text.len(),
{
    if text.len() == 0 {
        Seq::empty()
    } else if text.first() == '\\' || text.first() == '"' {
        seq!['\\', text.first()] + escaped(text.drop_first())
    } else {
        seq![text.first()] + escaped(text.drop_first())
    }
}

/// The text of a float literal: decimal digits and one dot, a digit first.
pub open spec fn float_text(text: Seq<char>) -> bool {
    &&& text.len() > 0
    &&& is_digit(text[0], 10)
    &&& forall|k: int| 0 <= k < text.len() ==> decimal_char(#[trigger] text[k])
    &&& occurrences(text, '.') == 1
}

/// The text of an identifier: characters of words that are not white
/// space, the first of them no digit, the whole no reserved word.
pub open spec fn identifier_text(name: Seq<char>) -> bool {
    &&& name.len() > 0
    &&& !is_digit(name[0], 10)
    &&& forall|k: int| 0 <= k < name.len() ==> word_char(#[trigger] name[k]) && !whitespace(name[k])
    &&& keyword(name) is None
}

/// The token can be written as source text: every token but a negative
/// integer, a float or an identifier that no source text gives, and the
/// end-of-input marker.
pub open spec fn writable(token: Token) -> bool {
    match token {
        Token::Int(value) => value >= 0,
        Token::Float(text) => float_text(text),
        Token::Identifier(name) => identifier_text(name),
        Token::EOF => false,
        _ => true,
    }
}

/// The source text of a token.
pub open spec fn text_of(token: Token) -> Seq<char> {
    match token {
        Token::String(text) => seq!['"'] + escaped(text) + seq!['"'],
        Token::Int(value) => decimal(value as nat),
        Token::Float(text) => text,
        Token::Identifier(name) => name,
        Token::Callable => "callable"@,
        Token::Const => "const"@,
        Token::Local => "local"@,
        Token::BinaryOperator(operator) => match operator {
            BinaryOperator::Add => seq!['+'],
            BinaryOperator::Substract => seq!['-'],
            BinaryOperator::Multiply => seq!['*'],
            BinaryOperator::Divide => seq!['/'],
            BinaryOperator::Modulo => seq!['%'],
        },
        Token::BitwiseShift(direction) => match direction {
            BitwiseShift::Left => seq!['<', '<'],
            BitwiseShift::Right => seq!['>', '>'],
        },
        Token::Equals => seq!['='],
        Token::If => "if"@,
        Token::Else => "else"@,
        Token::ElseIf => "else_if"@,
        Token::While => "while"@,
        Token::LogicalExpr(operator) => match operator {
            LogicalExpr::And => "and"@,
            LogicalExpr::Or => "or"@,
            LogicalExpr::Xor => "xor"@,
        },
        Token::Not => seq!['!'],
        Token::ComparisonExpr(operator) => match operator {
            ComparisonExpr::Equals => seq!['=', '='],
            ComparisonExpr::NotEquals => seq!['!', '='],
            ComparisonExpr::Greater => seq!['>'],
            ComparisonExpr::GreaterEqual => seq!['>', '='],
            ComparisonExpr::Less => seq!['<'],
            ComparisonExpr::LessEqual => seq!['<', '='],
        },
        Token::OpenParen => seq!['('],
        Token::ClosedParen => seq![')'],
        Token::OpenBrace => seq!['{'],
        Token::ClosedBrace => seq!['}'],
        Token::OpenBracket => seq!['['],
        Token::ClosedBracket => seq![']'],
        Token::Comma => seq![','],
        Token::Dot => seq!['.'],
        Token::Colon => seq![':'],
        Token::SemiColon => seq![';'],
        Token::Monkey => seq!['@'],
        Token::EOF => Seq::empty(),
    }
}

/// A token sequence that can be written as source text: it is well formed,
/// and each token before the end-of-input marker is writable.
pub open spec fn renderable(tokens: Seq<Token>) -> bool {
    &&& well_formed(tokens)
    &&& forall|k: int| 0 <= k < tokens.len() - 1 ==> writable(#[trigger] tokens[k])
}

/// The source text of a token sequence: the texts of its tokens, with one
/// space between two of them; the end-of-input marker has no text.
pub open spec fn render(tokens: Seq<Token>) -> Seq<char>
    decreases tokens.len(),
{
    if tokens.len() <= 1 {
        Seq::empty()
    } else if tokens.len() == 2 {
        text_of(tokens[0])
    } else {
        text_of(tokens[0]) + seq![' '] + render(tokens.drop_first())
    }
}

/// The character of a decimal digit.
fn digit_to_char(digit: u32) -> (c: char)
    requires
        digit < 10,
    ensures
        c == digit_char(digit as nat),
{
    if digit == 0 {
        '0'
    } else if digit == 1 {
        '1'
    } else if digit == 2 {
        '2'
    } else if digit == 3 {
        '3'
    } else if digit == 4 {
        '4'
    } else if digit == 5 {
        '5'
    } else if digit == 6 {
        '6'
    } else if digit == 7 {
        '7'
    } else if digit == 8 {
        '8'
    } else {
        '9'
    }
}

/// Appends the decimal digits of `n`.
fn push_decimal(s: &mut String, n: u32)
    ensures
        final(s)@ == old(s)@ + decimal(n as nat),
    decreases n,
{
    if n >= 10 {
        push_decimal(s, n / 10);
    }
    s.push(digit_to_char(n % 10));
    assert(s@ =~= old(s)@ + decimal(n as nat));
}

/// Appends the content of a string literal, escaped.
fn push_escaped(s: &mut String, text: &str)
    ensures
        final(s)@ == old(s)@ + escaped(text@),
{
    let chars = chars_of(text);
    let mut k: usize = 0;
    assert(chars@.skip(0) =~= chars@);
    assert(s@ + escaped(chars@) =~= old(s)@ + escaped(text@));
    while k < chars.len()
        invariant
            k <= chars.len(),
            chars@ == text@,
            s@ + escaped(chars@.skip(k as int)) == old(s)@ + escaped(text@),
        decreases chars.len() - k,
    {
        let c = chars[k];
        let ghost before = s@;
        let ghost tail = escaped(chars@.skip(k + 1));
        assert(chars@.skip(k as int).drop_first() =~= chars@.skip(k + 1));
        assert(chars@.skip(k as int).first() == c);
        if c == '\\' || c == '"' {
            s.push('\\');
            assert(before.push('\\').push(c) + tail =~= before + (seq!['\\', c] + tail));
        } else {
            assert(before.push(c) + tail =~= before + (seq![c] + tail));
        }
        s.push(c);
        k += 1;
    }
    assert(s@ + escaped(chars@.skip(k as int)) =~= s@);
}

/// Whether the text is that of a float literal.
fn is_float_text(text: &str) -> (b: bool)
    ensures
        b == float_text(text@),
{
    let chars = chars_of(text);
    if chars.len() == 0 || !is_radix_digit(chars[0], 10) {
        return false;
    }
    let mut k: usize = 0;
    while k < chars.len()
        invariant
            k <= chars.len(),
            chars@ == text@,
            forall|j: int| 0 <= j < k ==> decimal_char(#[trigger] chars@[j]),
        decreases chars.len() - k,
    {
        if !is_decimal_char(chars[k]) {
            return false;
        }
        k += 1;
    }
    assert(chars@.subrange(0, chars.len() as int) =~= chars@);
    count_char(&chars, 0, chars.len(), '.') == 1
}

/// Whether the text is that of an identifier.
fn is_identifier_text(name: &String) -> (b: bool)
    ensures
        b == identifier_text(name@),
{
    let chars = chars_of(name.as_str());
    if chars.len() == 0 || is_radix_digit(chars[0], 10) {
        return false;
    }
    let mut k: usize = 0;
    while k < chars.len()
        invariant
            k <= chars.len(),
            chars@ == name@,
            forall|j: int| 0 <= j < k ==> word_char(#[trigger] chars@[j]) && !whitespace(chars@[j]),
        decreases chars.len() - k,
    {
        if !is_word_char(chars[k]) || is_space(chars[k]) {
            return false;
        }
        k += 1;
    }
    get_keyword(name.clone()).is_none()
}

/// Whether the token can be written as source text.
fn is_writable(token: &TokenType) -> (b: bool)
    ensures
        b == writable(token@),
{
    match token {
        TokenType::Int(value) => *value >= 0,
        TokenType::Float(text) => is_float_text(text.as_str()),
        TokenType::Identifier(name) => is_identifier_text(name),
        TokenType::EOF => false,
        _ => true,
    }
}

/// Appends the source text of a token.
fn push_text(s: &mut String, token: &TokenType)
    requires
        writable(token@),
    ensures
        final(s)@ == old(s)@ + text_of(token@),
{
    match token {
        TokenType::String(text) => {
            s.push('"');
            push_escaped(s, text.as_str());
            s.push('"');
            assert(s@ =~= old(s)@ + (seq!['"'] + escaped(text@) + seq!['"']));
        },
        TokenType::Int(value) => {
            push_decimal(s, *value as u32);
        },
        TokenType::Float(text) => {
            s.append(text.as_str());
        },
        TokenType::Identifier(name) => {
            s.append(name.as_str());
        },
        TokenType::Callable => {
            s.append("callable");
        },
        TokenType::Const => {
            s.append("const");
        },
        TokenType::Local => {
            s.append("local");
        },
        TokenType::BinaryOperator(operator) => {
            let mark = match operator {
                BinaryOperator::Add => '+',
                BinaryOperator::Substract => '-',
                BinaryOperator::Multiply => '*',
                BinaryOperator::Divide => '/',
                BinaryOperator::Modulo => '%',
            };
            s.push(mark);
            assert(s@ =~= old(s)@ + seq![mark]);
        },
        TokenType::BitwiseShift(direction) => {
            let mark = match direction {
                BitwiseShift::Left => '<',
                BitwiseShift::Right => '>',
            };
            s.push(mark);
            s.push(mark);
            assert(s@ =~= old(s)@ + seq![mark, mark]);
        },
        TokenType::Equals => {
            s.push('=');
            assert(s@ =~= old(s)@ + seq!['=']);
        },
        TokenType::If => {
            s.append("if");
        },
        TokenType::Else => {
            s.append("else");
        },
        TokenType::ElseIf => {
            s.append("else_if");
        },
        TokenType::While => {
            s.append("while");
        },
        TokenType::LogicalExpr(operator) => {
            match operator {
                LogicalExpr::And => s.append("and"),
                LogicalExpr::Or => s.append("or"),
                LogicalExpr::Xor => s.append("xor"),
            }
        },
        TokenType::Not => {
            s.push('!');
            assert(s@ =~= old(s)@ + seq!['!']);
        },
        TokenType::ComparisonExpr(operator) => {
            match operator {
                ComparisonExpr::Equals => {
                    s.push('=');
                    s.push('=');
                    assert(s@ =~= old(s)@ + seq!['=', '=']);
                },
                ComparisonExpr::NotEquals => {
                    s.push('!');
                    s.push('=');
                    assert(s@ =~= old(s)@ + seq!['!', '=']);
                },
                ComparisonExpr::Greater => {
                    s.push('>');
                    assert(s@ =~= old(s)@ + seq!['>']);
                },
                ComparisonExpr::GreaterEqual => {
                    s.push('>');
                    s.push('=');
                    assert(s@ =~= old(s)@ + seq!['>', '=']);
                },
                ComparisonExpr::Less => {
                    s.push('<');
                    assert(s@ =~= old(s)@ + seq!['<']);
                },
                ComparisonExpr::LessEqual => {
                    s.push('<');
                    s.push('=');
                    assert(s@ =~= old(s)@ + seq!['<', '=']);
                },
            }
        },
        TokenType::OpenParen => {
            s.push('(');
            assert(s@ =~= old(s)@ + seq!['(']);
        },
        TokenType::ClosedParen => {
            s.push(')');
            assert(s@ =~= old(s)@ + seq![')']);
        },
        TokenType::OpenBrace => {
            s.push('{');
            assert(s@ =~= old(s)@ + seq!['{']);
        },
        TokenType::ClosedBrace => {
            s.push('}');
            assert(s@ =~= old(s)@ + seq!['}']);
        },
        TokenType::OpenBracket => {
            s.push('[');
            assert(s@ =~= old(s)@ + seq!['[']);
        },
        TokenType::ClosedBracket => {
            s.push(']');
            assert(s@ =~= old(s)@ + seq![']']);
        },
        TokenType::Comma => {
            s.push(',');
            assert(s@ =~= old(s)@ + seq![',']);
        },
        TokenType::Dot => {
            s.push('.');
            assert(s@ =~= old(s)@ + seq!['.']);
        },
        TokenType::Colon => {
            s.push(':');
            assert(s@ =~= old(s)@ + seq![':']);
        },
        TokenType::SemiColon => {
            s.push(';');
            assert(s@ =~= old(s)@ + seq![';']);
        },
        TokenType::Monkey => {
            s.push('@');
            assert(s@ =~= old(s)@ + seq!['@']);
        },
        TokenType::EOF => {},
    }
}

/// Writes a token sequence as source text, where it can be written: the
/// sequence ends with the end-of-input marker and holds it nowhere else,
/// and each token before it is one that source text gives. Tokenizing the
/// text gives the sequence back.
pub fn render_tokens(tokens: &VecDeque<TokenType>) -> (r: Option<String>)
    ensures
        r is Some <==> renderable(tokens.deep_view()),
        r matches Some(text) ==> text@ == render(tokens.deep_view()) && lex(text@) == Ok::<
            Seq<Token>,
            Failure,
        >(tokens.deep_view()),
{
    let ghost all = tokens.deep_view();
    proof {
        if renderable(all) {
            lemma_render_round_trip(all);
        }
    }
    let n = tokens.len();
    if n == 0 {
        return None;
    }
    assert(all[n - 1] == tokens@[n - 1]@);
    if !matches!(tokens[n - 1], TokenType::EOF) {
        return None;
    }
    let mut text = String::new();
    let mut k: usize = 0;
    assert(all.skip(0) =~= all);
    assert(text@ + render(all) =~= render(all));
    while k < n - 1
        invariant
            k <= n - 1,
            n == tokens.len(),
            all == tokens.deep_view(),
            all.last() is EOF,
            forall|j: int| 0 <= j < k ==> writable(#[trigger] all[j]),
            text@ + render(all.skip(k as int)) == render(all),
        decreases n - k,
    {
        let token = &tokens[k];
        assert(all[k as int] == tokens@[k as int]@);
        if !is_writable(token) {
            return None;
        }
        let ghost before = text@;
        let ghost here = all.skip(k as int);
        assert(here[0] == all[k as int]);
        assert(here.drop_first() =~= all.skip(k + 1));
        push_text(&mut text, token);
        if k + 2 < n {
            text.push(' ');
            assert(text@ + render(all.skip(k + 1)) =~= before + (text_of(here[0]) + seq![' ']
                + render(all.skip(k + 1))));
        } else {
            assert(render(all.skip(k + 1)) =~= Seq::<char>::empty());
            assert(text@ + render(all.skip(k + 1)) =~= before + text_of(here[0]));
        }
        k += 1;
    }
    assert(render(all.skip(k as int)) =~= Seq::<char>::empty());
    assert(text@ + Seq::<char>::empty() =~= text@);
    Some(text)
}

} // verus!
