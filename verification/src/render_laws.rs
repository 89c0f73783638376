use crate::chars::{decimal_char, digit_value, is_ascii, is_digit, whitespace, word_char};
use crate::errors::Failure;
use crate::lexical::{
    arithmetic, digits_value, in_class, integer, keyword, lemma_next_advances,
    lemma_run_end_bounds, lex, lex_from, next, number, operator, punctuation, radix_of, run_end,
    string_body, trim, trim_end, trim_start, word, CharClass, Scan,
};
use crate::lexical_laws::{
    lemma_lex_from_well_formed, lemma_no_occurrence, lemma_run_end_is, lemma_string_body_token,
    lemma_trim_identity,
};
use crate::lexer_types::{LogicalExpr, Token};
use crate::render::{
    decimal, digit_char, escaped, float_text, identifier_text, render, renderable, text_of,
    writable,
};
use vstd::prelude::*;

verus! {

/// The text `text` stands in `s` at position `i`, and a space or the end
/// of `s` follows it.
pub open spec fn stands(s: Seq<char>, i: int, text: Seq<char>) -> bool {
    &&& 0 <= i
    &&& i + text.len() <= s.len()
    &&& s.subrange(i, i + text.len()) == text
    &&& i + text.len() < s.len() ==> s[i + text.len()] == ' '
}

/// The decimal digits of a number are digits, and denote the number.
pub proof fn lemma_decimal(n: nat)
    ensures
        decimal(n).len() > 0,
        forall|k: int| 0 <= k < decimal(n).len() ==> is_digit(#[trigger] decimal(n)[k], 10),
        digits_value(decimal(n), 10) == n,
    decreases n,
{
    if n < 10 {
        assert(digit_value(digit_char(n)) == Some(n));
        assert(decimal(n).drop_last() =~= Seq::<char>::empty());
        reveal_with_fuel(digits_value, 2);
    } else {
        lemma_decimal(n / 10);
        assert(digit_value(digit_char(n % 10)) == Some(n % 10));
        assert(decimal(n).drop_last() =~= decimal(n / 10));
    }
}


/// The tokens whose text is one or two marks: punctuation and operators.
pub open spec fn is_mark(token: Token) -> bool {
    match token {
        Token::BinaryOperator(_) | Token::BitwiseShift(_) | Token::Equals | Token::Not
        | Token::ComparisonExpr(_) | Token::OpenParen | Token::ClosedParen | Token::OpenBrace
        | Token::ClosedBrace | Token::OpenBracket | Token::ClosedBracket | Token::Comma
        | Token::Dot | Token::Colon | Token::SemiColon | Token::Monkey => true,
        _ => false,
    }
}

/// The tokens whose text is a reserved word.
pub open spec fn is_reserved(token: Token) -> bool {
    match token {
        Token::Callable | Token::Const | Token::Local | Token::If | Token::Else
        | Token::ElseIf | Token::While | Token::LogicalExpr(_) => true,
        _ => false,
    }
}

/// A text that stands in `s` holds the characters of `s` there.
pub proof fn lemma_stands_chars(s: Seq<char>, i: int, text: Seq<char>)
    requires
        stands(s, i, text),
    ensures
        forall|k: int| 0 <= k < text.len() ==> s[i + k] == #[trigger] text[k],
{
    assert forall|k: int| 0 <= k < text.len() implies s[i + k] == #[trigger] text[k] by {
        assert(s.subrange(i, i + text.len())[k] == s[i + k]);
    }
}

/// A space in the source gives no token.
pub proof fn lemma_space_is_skipped(s: Seq<char>, i: int)
    requires
        0 <= i < s.len(),
        s[i] == ' ',
    ensures
        next(s, i) == Scan::Skip(i + 1),
{
}

/// Punctuation and operators are read back from their text.
pub proof fn lemma_reads_mark(s: Seq<char>, i: int, token: Token)
    requires
        is_mark(token),
        stands(s, i, text_of(token)),
    ensures
        next(s, i) == Scan::Token(token, i + text_of(token).len()),
{
    lemma_stands_chars(s, i, text_of(token));
    let text = text_of(token);
    assert(s[i] == text[0]);
    if text.len() > 1 {
        assert(s[i + 1] == text[1]);
    }
}

/// A word is read as a word from the text in which it stands.
pub proof fn lemma_reads_word(s: Seq<char>, i: int, text: Seq<char>)
    requires
        text.len() > 0,
        !is_digit(text[0], 10),
        forall|k: int| 0 <= k < text.len() ==> word_char(#[trigger] text[k]),
        stands(s, i, text),
    ensures
        next(s, i) == word(s, i),
        run_end(s, i, CharClass::Word) == i + text.len(),
        s.subrange(i, run_end(s, i, CharClass::Word)) == text,
{
    lemma_stands_chars(s, i, text);
    assert(s[i] == text[0]);
    assert(word_char(text[0]));
    assert forall|k: int| i <= k < i + text.len() implies in_class(
        #[trigger] s[k],
        CharClass::Word,
    ) by {
        assert(s[i + (k - i)] == text[k - i]);
    }
    lemma_run_end_is(s, i, i + text.len(), CharClass::Word);
}

/// Each reserved word is found as its token.
pub proof fn lemma_reserved_words()
    ensures
        keyword("local"@) == Some(Token::Local),
        keyword("const"@) == Some(Token::Const),
        keyword("if"@) == Some(Token::If),
        keyword("else"@) == Some(Token::Else),
        keyword("else_if"@) == Some(Token::ElseIf),
        keyword("callable"@) == Some(Token::Callable),
        keyword("not"@) == Some(Token::Not),
        keyword("and"@) == Some(Token::LogicalExpr(LogicalExpr::And)),
        keyword("or"@) == Some(Token::LogicalExpr(LogicalExpr::Or)),
        keyword("xor"@) == Some(Token::LogicalExpr(LogicalExpr::Xor)),
        keyword("while"@) == Some(Token::While),
{
    reveal_strlit("local");
    reveal_strlit("const");
    reveal_strlit("if");
    reveal_strlit("else");
    reveal_strlit("else_if");
    reveal_strlit("callable");
    reveal_strlit("not");
    reveal_strlit("and");
    reveal_strlit("or");
    reveal_strlit("xor");
    reveal_strlit("while");
    assert("local"@[0] == 'l' && "local"@.len() == 5);
    assert("const"@[0] == 'c' && "const"@.len() == 5);
    assert("if"@[0] == 'i' && "if"@.len() == 2);
    assert("else"@[0] == 'e' && "else"@.len() == 4);
    assert("else_if"@[0] == 'e' && "else_if"@.len() == 7);
    assert("callable"@[0] == 'c' && "callable"@.len() == 8);
    assert("not"@[0] == 'n' && "not"@.len() == 3);
    assert("and"@[0] == 'a' && "and"@.len() == 3);
    assert("or"@[0] == 'o' && "or"@.len() == 2);
    assert("xor"@[0] == 'x' && "xor"@.len() == 3);
    assert("while"@[0] == 'w' && "while"@.len() == 5);
}

/// The reserved words are made of letters and the underscore.
pub proof fn lemma_reserved_text(token: Token)
    requires
        is_reserved(token),
    ensures
        text_of(token).len() > 0,
        !is_digit(text_of(token)[0], 10),
        forall|k: int| 0 <= k < text_of(token).len() ==> word_char(#[trigger] text_of(token)[k])
            && !whitespace(text_of(token)[k]),
        keyword(text_of(token)) == Some(token),
{
    lemma_reserved_words();
    reveal_strlit("local");
    reveal_strlit("const");
    reveal_strlit("if");
    reveal_strlit("else");
    reveal_strlit("else_if");
    reveal_strlit("callable");
    reveal_strlit("and");
    reveal_strlit("or");
    reveal_strlit("xor");
    reveal_strlit("while");
}

/// A reserved word is read back from its text.
pub proof fn lemma_reads_reserved(s: Seq<char>, i: int, token: Token)
    requires
        is_reserved(token),
        stands(s, i, text_of(token)),
    ensures
        next(s, i) == Scan::Token(token, i + text_of(token).len()),
{
    lemma_reserved_text(token);
    lemma_reads_word(s, i, text_of(token));
}

/// An identifier is read back from its text.
pub proof fn lemma_reads_identifier(s: Seq<char>, i: int, name: Seq<char>)
    requires
        identifier_text(name),
        stands(s, i, name),
    ensures
        next(s, i) == Scan::Token(Token::Identifier(name), i + name.len()),
{
    lemma_reads_word(s, i, name);
}

/// A number that is not negative is read back from its decimal digits.
pub proof fn lemma_reads_int(s: Seq<char>, i: int, value: i32)
    requires
        value >= 0,
        stands(s, i, decimal(value as nat)),
    ensures
        next(s, i) == Scan::Token(Token::Int(value), i + decimal(value as nat).len()),
{
    let text = decimal(value as nat);
    let end = i + text.len();
    lemma_decimal(value as nat);
    lemma_stands_chars(s, i, text);
    assert(s[i] == text[0]);
    assert(is_digit(text[0], 10));
    if text.len() > 1 {
        assert(s[i + 1] == text[1]);
        assert(is_digit(text[1], 10));
    }
    assert forall|k: int| i <= k < end implies in_class(#[trigger] s[k], CharClass::Decimal) by {
        assert(s[i + (k - i)] == text[k - i]);
        assert(is_digit(text[k - i], 10));
    }
    lemma_run_end_is(s, i, end, CharClass::Decimal);
    assert forall|k: int| 0 <= k < text.len() implies #[trigger] text[k] != '.' by {
        assert(is_digit(text[k], 10));
    }
    lemma_no_occurrence(text, '.');
    assert(number(s, i) == integer(text, 10, end));
}

/// A float literal is read back from its text.
pub proof fn lemma_reads_float(s: Seq<char>, i: int, text: Seq<char>)
    requires
        float_text(text),
        stands(s, i, text),
    ensures
        next(s, i) == Scan::Token(Token::Float(text), i + text.len()),
{
    let end = i + text.len();
    lemma_stands_chars(s, i, text);
    assert(s[i] == text[0]);
    if text.len() > 1 {
        assert(s[i + 1] == text[1]);
        assert(decimal_char(text[1]));
    }
    assert forall|k: int| i <= k < end implies in_class(#[trigger] s[k], CharClass::Decimal) by {
        assert(s[i + (k - i)] == text[k - i]);
        assert(decimal_char(text[k - i]));
    }
    lemma_run_end_is(s, i, end, CharClass::Decimal);
}

/// The content of a string literal is read back from its escaped text,
/// where the closing quote follows.
pub proof fn lemma_reads_string_body(s: Seq<char>, i: int, text: Seq<char>, value: Seq<char>)
    requires
        0 <= i,
        i + escaped(text).len() < s.len(),
        s.subrange(i, i + escaped(text).len()) == escaped(text),
        s[i + escaped(text).len()] == '"',
    ensures
        string_body(s, i, '"', value) == Scan::Token(
            Token::String(value + text),
            i + escaped(text).len() + 1,
        ),
    decreases text.len(),
{
    let whole = escaped(text);
    if text.len() == 0 {
        assert(value + text =~= value);
    } else {
        let c = text.first();
        let tail = text.drop_first();
        assert forall|k: int| 0 <= k < whole.len() implies s[i + k] == #[trigger] whole[k] by {
            assert(s.subrange(i, i + whole.len())[k] == s[i + k]);
        }
        if c == '\\' || c == '"' {
            assert(whole == seq!['\\', c] + escaped(tail));
            assert(whole[0] == '\\' && whole[1] == c);
            assert(s[i] == '\\' && s[i + 1] == c);
            assert(s.subrange(i + 2, i + 2 + escaped(tail).len()) =~= escaped(tail)) by {
                assert forall|k: int| 0 <= k < escaped(tail).len() implies s[i + 2 + k]
                    == escaped(tail)[k] by {
                    assert(whole[k + 2] == escaped(tail)[k]);
                }
            }
            lemma_reads_string_body(s, i + 2, tail, value.push(c));
            assert(value.push(c) + tail =~= value + text);
        } else {
            assert(whole == seq![c] + escaped(tail));
            assert(whole[0] == c);
            assert(s[i] == c);
            assert(s.subrange(i + 1, i + 1 + escaped(tail).len()) =~= escaped(tail)) by {
                assert forall|k: int| 0 <= k < escaped(tail).len() implies s[i + 1 + k]
                    == escaped(tail)[k] by {
                    assert(whole[k + 1] == escaped(tail)[k]);
                }
            }
            lemma_reads_string_body(s, i + 1, tail, value.push(c));
            assert(value.push(c) + tail =~= value + text);
        }
    }
}

/// A string is read back from its literal.
pub proof fn lemma_reads_string(s: Seq<char>, i: int, text: Seq<char>)
    requires
        stands(s, i, text_of(Token::String(text))),
    ensures
        next(s, i) == Scan::Token(
            Token::String(text),
            i + text_of(Token::String(text)).len(),
        ),
{
    let literal = text_of(Token::String(text));
    let inner = escaped(text);
    lemma_stands_chars(s, i, literal);
    assert(literal.len() == inner.len() + 2);
    assert(literal[0] == '"');
    assert(s[i] == '"');
    let last: int = inner.len() as int + 1;
    assert(literal[last] == '"');
    assert(s[i + last] == literal[last]);
    assert(s.subrange(i + 1, i + 1 + inner.len()) =~= inner) by {
        assert forall|k: int| 0 <= k < inner.len() implies s[i + 1 + k] == inner[k] by {
            assert(s[i + (k + 1)] == literal[k + 1]);
        }
    }
    lemma_reads_string_body(s, i + 1, text, Seq::empty());
    assert(Seq::<char>::empty() + text =~= text);
}

/// A writable token is read back from its text.
pub proof fn lemma_reads(s: Seq<char>, i: int, token: Token)
    requires
        writable(token),
        stands(s, i, text_of(token)),
    ensures
        next(s, i) == Scan::Token(token, i + text_of(token).len()),
{
    match token {
        Token::String(text) => lemma_reads_string(s, i, text),
        Token::Int(value) => lemma_reads_int(s, i, value),
        Token::Float(text) => lemma_reads_float(s, i, text),
        Token::Identifier(name) => lemma_reads_identifier(s, i, name),
        _ => {
            if is_mark(token) {
                lemma_reads_mark(s, i, token);
            } else {
                lemma_reads_reserved(s, i, token);
            }
        },
    }
}


/// The text of a writable token is not empty, and neither starts nor ends
/// with white space.
pub proof fn lemma_text_edges(token: Token)
    requires
        writable(token),
    ensures
        text_of(token).len() > 0,
        !whitespace(text_of(token).first()),
        !whitespace(text_of(token).last()),
{
    let text = text_of(token);
    match token {
        Token::String(content) => {
            assert(text.first() == '"');
            assert(text.last() == '"');
        },
        Token::Int(value) => {
            lemma_decimal(value as nat);
            assert(is_digit(text.first(), 10));
            assert(is_digit(text.last(), 10));
        },
        Token::Float(_) => {
            assert(decimal_char(text.first()));
            assert(decimal_char(text.last()));
        },
        Token::Identifier(_) => {
            assert(word_char(text.first()) && !whitespace(text.first()));
            assert(word_char(text.last()) && !whitespace(text.last()));
        },
        _ => {
            if is_reserved(token) {
                lemma_reserved_text(token);
                assert(word_char(text.first()) && !whitespace(text.first()));
                assert(word_char(text.last()) && !whitespace(text.last()));
            }
        },
    }
}

/// What follows the first token of a renderable sequence is renderable.
pub proof fn lemma_renderable_tail(tokens: Seq<Token>)
    requires
        renderable(tokens),
        tokens.len() > 1,
    ensures
        renderable(tokens.drop_first()),
{
    let tail = tokens.drop_first();
    assert(tail.last() == tokens.last());
    assert forall|k: int| 0 <= k < tail.len() - 1 implies writable(#[trigger] tail[k]) && !(tail[k]
        is EOF) by {
        assert(tail[k] == tokens[k + 1]);
    }
}

/// The text of a renderable sequence of more than the end-of-input marker
/// is not empty, and neither starts nor ends with white space.
pub proof fn lemma_render_edges(tokens: Seq<Token>)
    requires
        renderable(tokens),
        tokens.len() > 1,
    ensures
        render(tokens).len() > 0,
        !whitespace(render(tokens).first()),
        !whitespace(render(tokens).last()),
    decreases tokens.len(),
{
    lemma_text_edges(tokens[0]);
    if tokens.len() > 2 {
        lemma_renderable_tail(tokens);
        lemma_render_edges(tokens.drop_first());
    }
}

/// From the position where the text of a renderable sequence begins, and
/// with which the source ends, the source gives the sequence.
pub proof fn lemma_lex_rendered(s: Seq<char>, i: int, tokens: Seq<Token>)
    requires
        renderable(tokens),
        0 <= i <= s.len(),
        s.skip(i) == render(tokens),
    ensures
        lex_from(s, i) == Ok::<Seq<Token>, Failure>(tokens),
    decreases tokens.len(),
{
    if tokens.len() == 1 {
        assert(s.skip(i).len() == 0);
        assert(tokens =~= seq![Token::EOF]);
    } else {
        let token = tokens[0];
        let text = text_of(token);
        let end = i + text.len();
        let tail = tokens.drop_first();
        lemma_text_edges(token);
        lemma_renderable_tail(tokens);
        assert(s.skip(i).len() == s.len() - i);
        if tokens.len() == 2 {
            assert(s.subrange(i, end) =~= s.skip(i));
            lemma_reads(s, i, token);
            assert(lex_from(s, end) == Ok::<Seq<Token>, Failure>(seq![Token::EOF]));
            assert(seq![token] + seq![Token::EOF] =~= tokens);
        } else {
            let whole = text + seq![' '] + render(tail);
            assert(s.subrange(i, end) =~= text) by {
                assert forall|k: int| 0 <= k < text.len() implies s[i + k] == text[k] by {
                    assert(s.skip(i)[k] == whole[k]);
                }
            }
            assert(s[end] == ' ') by {
                assert(s.skip(i)[text.len() as int] == whole[text.len() as int]);
            }
            lemma_reads(s, i, token);
            lemma_space_is_skipped(s, end);
            assert(s.skip(end + 1) =~= render(tail)) by {
                assert forall|k: int| 0 <= k < render(tail).len() implies s[end + 1 + k]
                    == render(tail)[k] by {
                    assert(s.skip(i)[text.len() + 1 + k] == whole[text.len() + 1 + k]);
                }
            }
            lemma_lex_rendered(s, end + 1, tail);
            assert(lex_from(s, end) == lex_from(s, end + 1));
            assert(seq![token] + tail =~= tokens);
        }
    }
}

/// Tokenizing the text of a renderable token sequence gives the sequence
/// back.
pub proof fn lemma_render_round_trip(tokens: Seq<Token>)
    requires
        renderable(tokens),
    ensures
        lex(render(tokens)) == Ok::<Seq<Token>, Failure>(tokens),
{
    let text = render(tokens);
    if tokens.len() > 1 {
        lemma_render_edges(tokens);
    }
    lemma_trim_identity(text);
    assert(text.skip(0) =~= text);
    lemma_lex_rendered(text, 0, tokens);
}


/// A text in which no character of words is white space. Every text of
/// ASCII characters is such a text ([`lemma_ascii_is_plain`]).
pub open spec fn plain(text: Seq<char>) -> bool {
    forall|k: int| 0 <= k < text.len() ==> !(word_char(#[trigger] text[k]) && whitespace(text[k]))
}

/// Within ASCII no character of words is white space.
pub proof fn lemma_ascii_is_plain(text: Seq<char>)
    requires
        forall|k: int| 0 <= k < text.len() ==> is_ascii(#[trigger] text[k]),
    ensures
        plain(text),
{
}

/// Trimming a plain text leaves a plain text.
pub proof fn lemma_trim_plain(text: Seq<char>)
    requires
        plain(text),
    ensures
        plain(trim(text)),
{
    lemma_trim_start_plain(text);
    lemma_trim_end_plain(trim_start(text));
}

/// Trimming the start of a plain text leaves a plain text.
pub proof fn lemma_trim_start_plain(text: Seq<char>)
    requires
        plain(text),
    ensures
        plain(trim_start(text)),
    decreases text.len(),
{
    if text.len() > 0 && whitespace(text.first()) {
        let tail = text.drop_first();
        assert forall|k: int| 0 <= k < tail.len() implies !(word_char(#[trigger] tail[k])
            && whitespace(tail[k])) by {
            assert(tail[k] == text[k + 1]);
        }
        lemma_trim_start_plain(tail);
    }
}

/// Trimming the end of a plain text leaves a plain text.
pub proof fn lemma_trim_end_plain(text: Seq<char>)
    requires
        plain(text),
    ensures
        plain(trim_end(text)),
    decreases text.len(),
{
    if text.len() > 0 && whitespace(text.last()) {
        let front = text.drop_last();
        assert forall|k: int| 0 <= k < front.len() implies !(word_char(#[trigger] front[k])
            && whitespace(front[k])) by {
            assert(front[k] == text[k]);
        }
        lemma_trim_end_plain(front);
    }
}

/// The characters of a run are of its class.
pub proof fn lemma_run_chars(s: Seq<char>, i: int, class: CharClass)
    requires
        0 <= i <= s.len(),
    ensures
        forall|k: int| i <= k < run_end(s, i, class) ==> in_class(#[trigger] s[k], class),
    decreases s.len() - i,
{
    if i < s.len() && in_class(s[i], class) {
        lemma_run_chars(s, i + 1, class);
    }
}

/// A token that a plain source gives can be written as source text.
pub proof fn lemma_next_is_writable(s: Seq<char>, i: int)
    requires
        0 <= i < s.len(),
        plain(s),
    ensures
        next(s, i) matches Scan::Token(token, _) ==> writable(token),
{
    lemma_string_body_token(s, i + 1, s[i], Seq::empty());
    let c = s[i];
    if punctuation(c) is Some || operator(s, i) is Some || c == '`' || arithmetic(c) is Some {
    } else if is_digit(c, 10) {
        if !(c == '0' && i + 1 < s.len() && radix_of(s[i + 1]) is Some) {
            let end = run_end(s, i, CharClass::Decimal);
            let text = s.subrange(i, end);
            lemma_run_chars(s, i, CharClass::Decimal);
            lemma_run_end_bounds(s, i + 1, CharClass::Decimal);
            assert(in_class(c, CharClass::Decimal));
            assert(end > i);
            assert(text[0] == s[i]);
            assert forall|k: int| 0 <= k < text.len() implies decimal_char(#[trigger] text[k]) by {
                assert(in_class(s[i + k], CharClass::Decimal));
            }
        }
    } else if word_char(c) {
        let end = run_end(s, i, CharClass::Word);
        let text = s.subrange(i, end);
        lemma_run_chars(s, i, CharClass::Word);
        lemma_run_end_bounds(s, i + 1, CharClass::Word);
        assert(in_class(c, CharClass::Word));
        assert(end > i);
        assert(text[0] == s[i]);
        assert forall|k: int| 0 <= k < text.len() implies word_char(#[trigger] text[k])
            && !whitespace(text[k]) by {
            assert(in_class(s[i + k], CharClass::Word));
        }
    }
}

/// The tokens that a plain source gives from any position on can be
/// rendered.
pub proof fn lemma_lex_from_renderable(s: Seq<char>, i: int)
    requires
        0 <= i <= s.len(),
        plain(s),
    ensures
        lex_from(s, i) matches Ok(tokens) ==> renderable(tokens),
    decreases s.len() - i,
{
    lemma_lex_from_well_formed(s, i);
    if i < s.len() {
        lemma_next_advances(s, i);
        lemma_next_is_writable(s, i);
        match next(s, i) {
            Scan::Token(token, after) => {
                lemma_lex_from_renderable(s, after);
                if let Ok(tokens) = lex_from(s, after) {
                    let all = seq![token] + tokens;
                    assert forall|k: int| 0 <= k < all.len() - 1 implies writable(
                        #[trigger] all[k],
                    ) by {
                        if k > 0 {
                            assert(all[k] == tokens[k - 1]);
                        }
                    }
                }
            },
            Scan::Skip(after) => {
                lemma_lex_from_renderable(s, after);
            },
            Scan::Unexpected(_, after) => {
                lemma_lex_from_renderable(s, after);
            },
            Scan::Fail(_, _) => {},
        }
    }
}

/// Tokenizing is idempotent through the rendering: the tokens of a plain
/// source text can be rendered, and tokenizing their text gives them again.
pub proof fn lemma_tokenize_is_idempotent(source: Seq<char>)
    requires
        plain(source),
    ensures
        lex(source) matches Ok(tokens) ==> renderable(tokens) && lex(render(tokens)) == lex(
            source,
        ),
{
    lemma_trim_plain(source);
    lemma_lex_from_renderable(trim(source), 0);
    if let Ok(tokens) = lex(source) {
        lemma_render_round_trip(tokens);
    }
}

} // verus!
