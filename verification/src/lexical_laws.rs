use crate::chars::{is_digit, whitespace};
use crate::errors::Failure;
use crate::lexical::{
    digits_value, escape, hex_bytes, hex_end, in_class, integer, lemma_hex_end_bounds,
    lemma_next_advances, lex, lex_from, next, number, occurrences, run_end, string_body, trim,
    CharClass, Scan,
};
use crate::lexer_types::{well_formed, Token};
use vstd::prelude::*;
use vstd::utf8::{decode_utf8, valid_utf8};

verus! {

/// A text that neither starts nor ends with white space is its own trimmed
/// form.
pub proof fn lemma_trim_identity(s: Seq<char>)
    requires
        s.len() > 0 ==> !whitespace(s.first()) && !whitespace(s.last()),
    ensures
        trim(s) == s,
{
}

/// A run ends where the first character stands that is not of its class.
pub proof fn lemma_run_end_is(s: Seq<char>, i: int, end: int, class: CharClass)
    requires
        0 <= i <= end <= s.len(),
        forall|k: int| i <= k < end ==> in_class(#[trigger] s[k], class),
        end < s.len() ==> !in_class(s[end], class),
    ensures
        run_end(s, i, class) == end,
    decreases end - i,
{
    if i < end {
        lemma_run_end_is(s, i + 1, end, class);
    }
}

/// A character that a text does not hold occurs in it no times.
pub proof fn lemma_no_occurrence(s: Seq<char>, c: char)
    requires
        forall|k: int| 0 <= k < s.len() ==> #[trigger] s[k] != c,
    ensures
        occurrences(s, c) == 0,
    decreases s.len(),
{
    if s.len() > 0 {
        lemma_no_occurrence(s.drop_last(), c);
    }
}

/// A string literal, where it is closed, gives a string token.
pub proof fn lemma_string_body_token(s: Seq<char>, i: int, quote: char, value: Seq<char>)
    requires
        0 <= i <= s.len(),
    ensures
        string_body(s, i, quote, value) matches Scan::Token(token, _) ==> token is String,
    decreases s.len() - i,
{
    if i < s.len() && s[i] != quote {
        if s[i] != '\\' {
            lemma_string_body_token(s, i + 1, quote, value.push(s[i]));
        } else if i + 1 < s.len() {
            if escape(s[i + 1]) is Some {
                lemma_string_body_token(s, i + 2, quote, value.push(escape(s[i + 1])->0));
            } else if s[i + 1] == 'x' {
                let end = hex_end(s, i + 2);
                let digits = s.subrange(i + 2, end);
                lemma_hex_end_bounds(s, i + 2);
                if end > i + 2 && valid_utf8(hex_bytes(digits)) {
                    lemma_string_body_token(s, end, quote, value + decode_utf8(hex_bytes(digits)));
                }
            } else {
                lemma_string_body_token(s, i + 1, quote, value);
            }
        }
    }
}

/// No look at the source gives the end-of-input marker.
pub proof fn lemma_next_is_not_the_end(s: Seq<char>, i: int)
    requires
        0 <= i < s.len(),
    ensures
        next(s, i) matches Scan::Token(token, _) ==> !(token is EOF),
{
    lemma_string_body_token(s, i + 1, s[i], Seq::empty());
}

/// The tokens of a source from any position on are well formed.
pub proof fn lemma_lex_from_well_formed(s: Seq<char>, i: int)
    requires
        0 <= i <= s.len(),
    ensures
        lex_from(s, i) matches Ok(tokens) ==> well_formed(tokens),
    decreases s.len() - i,
{
    if i < s.len() {
        lemma_next_advances(s, i);
        lemma_next_is_not_the_end(s, i);
        match next(s, i) {
            Scan::Token(token, after) => {
                lemma_lex_from_well_formed(s, after);
                if let Ok(tokens) = lex_from(s, after) {
                    let all = seq![token] + tokens;
                    assert(all.last() == tokens.last());
                    assert forall|k: int| 0 <= k < all.len() - 1 implies !(#[trigger] all[k]
                        is EOF) by {
                        if k > 0 {
                            assert(all[k] == tokens[k - 1]);
                        }
                    }
                }
            },
            Scan::Skip(after) => {
                lemma_lex_from_well_formed(s, after);
            },
            Scan::Unexpected(_, after) => {
                lemma_lex_from_well_formed(s, after);
            },
            Scan::Fail(_, _) => {},
        }
    }
}

/// The tokens of a source text end with the end-of-input marker, and hold
/// it nowhere else.
pub proof fn lemma_lex_well_formed(source: Seq<char>)
    ensures
        lex(source) matches Ok(tokens) ==> well_formed(tokens),
{
    lemma_lex_from_well_formed(trim(source), 0);
}

/// A text of decimal digits alone, whose number fits in 32 bits with a
/// sign, is one integer token of that number, followed by the
/// end-of-input marker.
pub proof fn lemma_decimal_literal(digits: Seq<char>)
    requires
        digits.len() > 0,
        forall|k: int| 0 <= k < digits.len() ==> is_digit(#[trigger] digits[k], 10),
        digits_value(digits, 10) <= i32::MAX,
    ensures
        lex(digits) == Ok::<Seq<Token>, Failure>(
            seq![Token::Int(digits_value(digits, 10) as i32), Token::EOF],
        ),
{
    let s = digits;
    let end = s.len() as int;
    assert(is_digit(s.first(), 10) && is_digit(s.last(), 10));
    lemma_trim_identity(s);
    assert(is_digit(s[0], 10));
    if s.len() > 1 {
        assert(is_digit(s[1], 10));
    }
    lemma_run_end_is(s, 0, end, CharClass::Decimal);
    assert(s.subrange(0, end) =~= s);
    lemma_no_occurrence(s, '.');
    assert(number(s, 0) == integer(s, 10, end));
    assert(next(s, 0) == number(s, 0));
    assert(lex_from(s, end) == Ok::<Seq<Token>, Failure>(seq![Token::EOF]));
    assert(seq![Token::Int(digits_value(digits, 10) as i32)] + seq![Token::EOF] =~= seq![
        Token::Int(digits_value(digits, 10) as i32),
        Token::EOF,
    ]);
}

} // verus!
