use crate::chars::{
    digit_value, is_decimal_char, is_radix_digit, is_space, is_word_char, to_digit,
};
use crate::errors::{same_failure, Errors, Failure};
use crate::lexical::{
    arithmetic, comment_end, digits_value, escape, hex_bytes, in_class, integer, invalid_utf8,
    is_at, keyword, lemma_next_advances, lex, lex_from, next, number, occurrences, operator,
    punctuation, radix_of, run_end, string_body, trim, trim_end, trim_start, unexpected,
    unexpected_from, unterminated, word, CharClass, Scan,
};
use crate::lexical_laws::lemma_lex_well_formed;
use crate::lexer_types::{
    well_formed, BinaryOperator, BitwiseShift, ComparisonExpr, LogicalExpr, Token, TokenType,
};
use crate::text::{chars_of, push_chars, string_of};
use std::collections::VecDeque;
use vstd::prelude::*;

verus! {

/// An executable [`Scan`].
pub enum Step {
    Token(TokenType, usize),
    Skip(usize),
    Unexpected(char, usize),
    Fail(Errors, String),
}

impl View for Step {
    type V = Scan;

    open spec fn view(&self) -> Scan {
        match self {
            Step::Token(token, after) => Scan::Token(token@, *after as int),
            Step::Skip(after) => Scan::Skip(*after as int),
            Step::Unexpected(c, after) => Scan::Unexpected(*c, *after as int),
            Step::Fail(kind, message) => Scan::Fail(*kind, message@),
        }
    }
}

/// The value of an optional token.
pub open spec fn token_of(found: Option<TokenType>) -> Option<Token> {
    match found {
        Some(token) => Some(token@),
        None => None,
    }
}

/// The source text as the tokenizer reads it: its characters, without the
/// white space at either end.
fn trimmed(source: &str) -> (chars: Vec<char>)
    ensures
        chars@ == trim(source@),
{
    let all = chars_of(source);
    let mut start: usize = 0;
    assert(all@.skip(0) =~= all@);
    while start < all.len() && is_space(all[start])
        invariant
            start <= all.len(),
            trim_start(all@) == trim_start(all@.skip(start as int)),
        decreases all.len() - start,
    {
        assert(all@.skip(start as int).drop_first() =~= all@.skip(start + 1));
        start += 1;
    }
    let mut end: usize = all.len();
    assert(all@.skip(start as int) =~= all@.subrange(start as int, end as int));
    while end > start && is_space(all[end - 1])
        invariant
            start <= end <= all.len(),
            trim(all@) == trim_end(all@.subrange(start as int, end as int)),
        decreases end,
    {
        assert(all@.subrange(start as int, end as int).drop_last() =~= all@.subrange(
            start as int,
            end - 1,
        ));
        end -= 1;
    }
    let mut chars: Vec<char> = Vec::new();
    let mut k: usize = start;
    while k < end
        invariant
            start <= k <= end <= all.len(),
            chars@ == all@.subrange(start as int, k as int),
        decreases end - k,
    {
        chars.push(all[k]);
        k += 1;
    }
    chars
}

/// The radix of a class of digits is one that the digits `0-9a-f` cover.
pub open spec fn supported(class: CharClass) -> bool {
    class matches CharClass::Digit(radix) ==> radix <= 16
}

/// Whether `c` is of the class.
fn belongs(c: char, class: CharClass) -> (b: bool)
    requires
        supported(class),
    ensures
        b == in_class(c, class),
{
    match class {
        CharClass::Digit(radix) => is_radix_digit(c, radix),
        CharClass::Decimal => is_decimal_char(c),
        CharClass::Word => is_word_char(c),
    }
}

/// The end of the run of `class` that starts at `i`, in the text up to
/// `limit`.
fn scan_run(s: &Vec<char>, i: usize, limit: usize, class: CharClass) -> (end: usize)
    requires
        i <= limit <= s.len(),
        supported(class),
    ensures
        end == run_end(s@.take(limit as int), i as int, class),
        i <= end <= limit,
{
    let mut j: usize = i;
    while j < limit && belongs(s[j], class)
        invariant
            i <= j <= limit <= s.len(),
            supported(class),
            run_end(s@.take(limit as int), i as int, class) == run_end(
                s@.take(limit as int),
                j as int,
                class,
            ),
        decreases limit - j,
    {
        j += 1;
    }
    j
}

/// How often `c` occurs in `s[from..to]`.
pub(crate) fn count_char(s: &Vec<char>, from: usize, to: usize, c: char) -> (n: usize)
    requires
        from <= to <= s.len(),
    ensures
        n == occurrences(s@.subrange(from as int, to as int), c),
{
    let mut n: usize = 0;
    let mut k: usize = from;
    while k < to
        invariant
            from <= k <= to <= s.len(),
            n <= k - from,
            n == occurrences(s@.subrange(from as int, k as int), c),
        decreases to - k,
    {
        assert(s@.subrange(from as int, k + 1).drop_last() =~= s@.subrange(
            from as int,
            k as int,
        ));
        if s[k] == c {
            n += 1;
        }
        k += 1;
    }
    n
}

/// The number that the digits `s[from..to]` denote, where it fits.
fn digits_to_int(s: &Vec<char>, from: usize, to: usize, radix: u32) -> (r: Option<i32>)
    requires
        from <= to <= s.len(),
        1 <= radix <= 16,
    ensures
        r is Some <==> digits_value(s@.subrange(from as int, to as int), radix as nat) <= i32::MAX,
        r matches Some(v) ==> v == digits_value(
            s@.subrange(from as int, to as int),
            radix as nat,
        ),
{
    let mut acc: i64 = 0;
    let mut fits = true;
    let mut k: usize = from;
    while k < to
        invariant
            from <= k <= to <= s.len(),
            1 <= radix <= 16,
            0 <= acc <= i32::MAX,
            fits ==> acc == digits_value(s@.subrange(from as int, k as int), radix as nat),
            !fits ==> digits_value(s@.subrange(from as int, k as int), radix as nat) > i32::MAX,
        decreases to - k,
    {
        let digit: i64 = match to_digit(s[k], 16) {
            Some(d) => d as i64,
            None => 0,
        };
        let ghost before = digits_value(s@.subrange(from as int, k as int), radix as nat);
        proof {
            assert(s@.subrange(from as int, k + 1).drop_last() =~= s@.subrange(
                from as int,
                k as int,
            ));
            assert(before * radix >= before) by (nonlinear_arith)
                requires
                    radix >= 1,
                    before >= 0,
            ;
        }
        if fits {
            assert(acc * radix <= 0x7fff_ffff * 16) by (nonlinear_arith)
                requires
                    0 <= acc <= 0x7fff_ffff,
                    1 <= radix <= 16,
            ;
            assert(acc * radix >= 0) by (nonlinear_arith)
                requires
                    0 <= acc,
                    1 <= radix,
            ;
            let wider: i64 = acc * (radix as i64) + digit;
            if wider > 0x7fff_ffff {
                fits = false;
            } else {
                acc = wider;
            }
        }
        k += 1;
    }
    if fits {
        Some(acc as i32)
    } else {
        None
    }
}

/// The integer token of the digits `s[from..to]`, or the failure where
/// their number does not fit.
fn integer_token(s: &Vec<char>, from: usize, to: usize, radix: u32) -> (r: Step)
    requires
        from <= to <= s.len(),
        1 <= radix <= 16,
    ensures
        r@ == integer(s@.subrange(from as int, to as int), radix as nat, to as int),
{
    match digits_to_int(s, from, to, radix) {
        Some(value) => Step::Token(TokenType::Int(value), to),
        None => Step::Fail(Errors::ValueError, "Integer literal out of range".to_string()),
    }
}

/// The radix that a letter after a leading `0` selects.
fn radix_for(c: char) -> (r: Option<u32>)
    ensures
        r == radix_of(c),
{
    if c == 'b' {
        Some(2)
    } else if c == 'x' {
        Some(16)
    } else if c == 'o' {
        Some(8)
    } else {
        None
    }
}

/// Reads the numeric literal that starts at `i`.
fn scan_number(s: &Vec<char>, i: usize) -> (r: Step)
    requires
        i < s.len(),
    ensures
        r@ == number(s@, i as int),
{
    assert(s@.take(s.len() as int) =~= s@);
    if s[i] == '0' && i + 1 < s.len() {
        if let Some(radix) = radix_for(s[i + 1]) {
            let end = scan_run(s, i + 2, s.len(), CharClass::Digit(radix));
            if end == i + 2 {
                let mut message = "Missing value after 0".to_string();
                message.push(s[i + 1]);
                return Step::Fail(Errors::SyntaxError, message);
            }
            return integer_token(s, i + 2, end, radix);
        }
    }
    let end = scan_run(s, i, s.len(), CharClass::Decimal);
    let dots = count_char(s, i, end, '.');
    if dots > 1 {
        Step::Fail(Errors::SyntaxError, "Multiple dots in a number".to_string())
    } else if dots == 1 {
        Step::Token(TokenType::Float(string_of(s, i, end)), end)
    } else {
        integer_token(s, i, end, 10)
    }
}

/// Looks a word up among the reserved words.
pub fn get_keyword(keyword: String) -> (r: Option<TokenType>)
    ensures
        token_of(r) == crate::lexical::keyword(keyword@),
{
    if keyword == "local".to_string() {
        return Some(TokenType::Local);
    } else if keyword == "const".to_string() {
        return Some(TokenType::Const);
    } else if keyword == "if".to_string() {
        return Some(TokenType::If);
    } else if keyword == "else".to_string() {
        return Some(TokenType::Else);
    } else if keyword == "else_if".to_string() {
        return Some(TokenType::ElseIf);
    } else if keyword == "callable".to_string() {
        return Some(TokenType::Callable);
    } else if keyword == "not".to_string() {
        return Some(TokenType::Not);
    } else if keyword == "and".to_string() {
        return Some(TokenType::LogicalExpr(LogicalExpr::And));
    } else if keyword == "or".to_string() {
        return Some(TokenType::LogicalExpr(LogicalExpr::Or));
    } else if keyword == "xor".to_string() {
        return Some(TokenType::LogicalExpr(LogicalExpr::Xor));
    } else if keyword == "while".to_string() {
        return Some(TokenType::While);
    }
    None
}

/// Reads the word that starts at `i`.
fn scan_word(s: &Vec<char>, i: usize) -> (r: Step)
    requires
        i < s.len(),
    ensures
        r@ == word(s@, i as int),
{
    assert(s@.take(s.len() as int) =~= s@);
    let end = scan_run(s, i, s.len(), CharClass::Word);
    match get_keyword(string_of(s, i, end)) {
        Some(token) => Step::Token(token, end),
        None => Step::Token(TokenType::Identifier(string_of(s, i, end)), end),
    }
}

/// The character that a backslash and `c` stand for.
fn unescape(c: char) -> (r: Option<char>)
    ensures
        r == escape(c),
{
    if c == '\\' {
        Some('\\')
    } else if c == '"' {
        Some('"')
    } else if c == '\'' {
        Some('\'')
    } else if c == 'n' {
        Some('\n')
    } else if c == 't' {
        Some('\t')
    } else if c == 'r' {
        Some('\r')
    } else {
        None
    }
}

/// The value of a hex digit; zero for any other character.
fn hex_value(c: char) -> (v: u8)
    ensures
        v < 16,
        v == match digit_value(c) {
            Some(d) => d,
            None => 0,
        },
{
    match to_digit(c, 16) {
        Some(d) => d as u8,
        None => 0,
    }
}

/// The bytes that the hex digits `s[from..to]` give, read in pairs.
fn read_hex_bytes(s: &Vec<char>, from: usize, to: usize) -> (bytes: Vec<u8>)
    requires
        from <= to <= s.len(),
    ensures
        bytes@ == hex_bytes(s@.subrange(from as int, to as int)),
{
    let ghost digits = s@.subrange(from as int, to as int);
    let mut bytes: Vec<u8> = Vec::new();
    let mut k: usize = from;
    assert(digits.skip(0) =~= digits);
    while k < to
        invariant
            from <= k <= to <= s.len(),
            digits == s@.subrange(from as int, to as int),
            hex_bytes(digits) == bytes@ + hex_bytes(digits.skip(k - from)),
        decreases to - k,
    {
        let ghost rest = digits.skip(k - from);
        let high = hex_value(s[k]);
        if k + 1 < to {
            let low = hex_value(s[k + 1]);
            let byte: u8 = high * 16 + low;
            proof {
                let pair = rest.take(2);
                assert(pair.drop_last() =~= seq![s@[k as int]]);
                assert(pair.drop_last().drop_last() =~= Seq::<char>::empty());
                reveal_with_fuel(digits_value, 3);
                assert(digits_value(pair, 16) == high * 16 + low);
                assert(rest.skip(2) =~= digits.skip(k + 2 - from));
                assert(bytes@.push(byte) + hex_bytes(rest.skip(2)) =~= bytes@ + (seq![byte]
                    + hex_bytes(rest.skip(2))));
            }
            bytes.push(byte);
            k += 2;
        } else {
            proof {
                assert(rest.drop_last() =~= Seq::<char>::empty());
                reveal_with_fuel(digits_value, 2);
                assert(digits_value(rest, 16) == high);
                assert(digits.skip(k + 1 - from) =~= Seq::<char>::empty());
                assert(hex_bytes(rest) =~= seq![high]);
                assert(bytes@.push(high) + hex_bytes(digits.skip(k + 1 - from)) =~= bytes@
                    + hex_bytes(rest));
            }
            bytes.push(high);
            k += 1;
        }
    }
    assert(bytes@ + hex_bytes(digits.skip(k - from)) =~= bytes@);
    bytes
}

/// The failure of a string literal that the source ends in.
fn unterminated_literal(partial: &String) -> (r: Step)
    ensures
        r@ == Scan::Fail(Errors::SyntaxError, unterminated(partial@)),
{
    let mut message = "Unterminated string literal \"".to_string();
    message.append(partial.as_str());
    message.append("\"");
    Step::Fail(Errors::SyntaxError, message)
}

/// The failure of a hex escape `s[from..to]` whose bytes are not UTF-8.
fn invalid_escape(s: &Vec<char>, from: usize, to: usize) -> (r: Step)
    requires
        from <= to <= s.len(),
    ensures
        r@ == Scan::Fail(Errors::ValueError, invalid_utf8(s@.subrange(from as int, to as int))),
{
    let mut message = "Invalid value after \\x, \"".to_string();
    push_chars(&mut message, s, from, to);
    message.append("\" is not a valid utf-8 sequence");
    Step::Fail(Errors::ValueError, message)
}

/// Reads the string literal whose opening quote stands before `i`.
fn scan_string(s: &Vec<char>, i: usize, quote: char) -> (r: Step)
    requires
        i <= s.len(),
    ensures
        r@ == string_body(s@, i as int, quote, Seq::empty()),
{
    let mut value = String::new();
    let mut k: usize = i;
    loop
        invariant
            i <= k <= s.len(),
            string_body(s@, i as int, quote, Seq::empty()) == string_body(
                s@,
                k as int,
                quote,
                value@,
            ),
        decreases s.len() - k,
    {
        if k >= s.len() {
            return unterminated_literal(&value);
        }
        let c = s[k];
        if c == quote {
            return Step::Token(TokenType::String(value), k + 1);
        }
        if c != '\\' {
            value.push(c);
            k += 1;
            continue;
        }
        if k + 1 >= s.len() {
            return unterminated_literal(&value);
        }
        let escaped = s[k + 1];
        if let Some(plain) = unescape(escaped) {
            value.push(plain);
            k += 2;
        } else if escaped == 'x' {
            let limit: usize = if s.len() - (k + 2) >= 6 {
                k + 8
            } else {
                s.len()
            };
            let end = scan_run(s, k + 2, limit, CharClass::Digit(16));
            if end <= k + 2 {
                return Step::Fail(
                    Errors::SyntaxError,
                    "Invalid or Missing hex digits after \\x".to_string(),
                );
            }
            match String::from_utf8(read_hex_bytes(s, k + 2, end)) {
                Ok(text) => {
                    value.append(text.as_str());
                    k = end;
                },
                Err(_) => {
                    return invalid_escape(s, k + 2, end);
                },
            }
        } else {
            k += 1;
        }
    }
}

/// The token of a punctuation mark.
fn punctuation_mark(c: char) -> (r: Option<TokenType>)
    ensures
        token_of(r) == punctuation(c),
{
    if c == '(' {
        Some(TokenType::OpenParen)
    } else if c == ')' {
        Some(TokenType::ClosedParen)
    } else if c == '{' {
        Some(TokenType::OpenBrace)
    } else if c == '}' {
        Some(TokenType::ClosedBrace)
    } else if c == '[' {
        Some(TokenType::OpenBracket)
    } else if c == ']' {
        Some(TokenType::ClosedBracket)
    } else if c == ':' {
        Some(TokenType::Colon)
    } else if c == ';' {
        Some(TokenType::SemiColon)
    } else if c == ',' {
        Some(TokenType::Comma)
    } else if c == '.' {
        Some(TokenType::Dot)
    } else if c == '@' {
        Some(TokenType::Monkey)
    } else {
        None
    }
}

/// The operator of an arithmetic mark.
fn arithmetic_operator(c: char) -> (r: Option<BinaryOperator>)
    ensures
        r == arithmetic(c),
{
    if c == '+' {
        Some(BinaryOperator::Add)
    } else if c == '-' {
        Some(BinaryOperator::Substract)
    } else if c == '*' {
        Some(BinaryOperator::Multiply)
    } else if c == '/' {
        Some(BinaryOperator::Divide)
    } else if c == '%' {
        Some(BinaryOperator::Modulo)
    } else {
        None
    }
}

/// Whether the character at position `i` is `c`.
fn stands_at(s: &Vec<char>, i: usize, c: char) -> (b: bool)
    ensures
        b == is_at(s@, i as int, c),
{
    i < s.len() && s[i] == c
}

/// The step of an optional scan.
pub open spec fn scan_of(found: Option<Step>) -> Option<Scan> {
    match found {
        Some(step) => Some(step@),
        None => None,
    }
}

/// Reads the operator that starts at `i` with `!`, `=`, `>` or `<`.
fn scan_operator(s: &Vec<char>, i: usize) -> (r: Option<Step>)
    requires
        i < s.len(),
    ensures
        scan_of(r) == operator(s@, i as int),
{
    let c = s[i];
    if c == '!' {
        if stands_at(s, i + 1, '=') {
            Some(Step::Token(TokenType::ComparisonExpr(ComparisonExpr::NotEquals), i + 2))
        } else {
            Some(Step::Token(TokenType::Not, i + 1))
        }
    } else if c == '=' {
        if stands_at(s, i + 1, '=') {
            Some(Step::Token(TokenType::ComparisonExpr(ComparisonExpr::Equals), i + 2))
        } else {
            Some(Step::Token(TokenType::Equals, i + 1))
        }
    } else if c == '>' {
        if stands_at(s, i + 1, '=') {
            Some(Step::Token(TokenType::ComparisonExpr(ComparisonExpr::GreaterEqual), i + 2))
        } else if stands_at(s, i + 1, '>') {
            Some(Step::Token(TokenType::BitwiseShift(BitwiseShift::Right), i + 2))
        } else {
            Some(Step::Token(TokenType::ComparisonExpr(ComparisonExpr::Greater), i + 1))
        }
    } else if c == '<' {
        if stands_at(s, i + 1, '=') {
            Some(Step::Token(TokenType::ComparisonExpr(ComparisonExpr::LessEqual), i + 2))
        } else if stands_at(s, i + 1, '<') {
            Some(Step::Token(TokenType::BitwiseShift(BitwiseShift::Left), i + 2))
        } else {
            Some(Step::Token(TokenType::ComparisonExpr(ComparisonExpr::Less), i + 1))
        }
    } else {
        None
    }
}

/// The position after the comment whose text starts at `i`.
fn skip_comment(s: &Vec<char>, i: usize) -> (end: usize)
    requires
        i <= s.len(),
    ensures
        end == comment_end(s@, i as int),
        i <= end <= s.len(),
{
    let mut k: usize = i;
    while k < s.len() && s[k] != '`'
        invariant
            i <= k <= s.len(),
            comment_end(s@, i as int) == comment_end(s@, k as int),
        decreases s.len() - k,
    {
        k += 1;
    }
    if k < s.len() {
        k + 1
    } else {
        k
    }
}

/// Reads what stands at position `i` of the source.
fn next_token(s: &Vec<char>, i: usize) -> (r: Step)
    requires
        i < s.len(),
    ensures
        r@ == next(s@, i as int),
{
    let c = s[i];
    if let Some(token) = punctuation_mark(c) {
        return Step::Token(token, i + 1);
    }
    if let Some(step) = scan_operator(s, i) {
        return step;
    }
    if c == '`' {
        Step::Skip(skip_comment(s, i + 1))
    } else if let Some(operator) = arithmetic_operator(c) {
        Step::Token(TokenType::BinaryOperator(operator), i + 1)
    } else if is_radix_digit(c, 10) {
        scan_number(s, i)
    } else if is_word_char(c) {
        scan_word(s, i)
    } else if c == '"' || c == '\'' {
        scan_string(s, i + 1, c)
    } else if is_space(c) {
        Step::Skip(i + 1)
    } else {
        Step::Unexpected(c, i + 1)
    }
}

/// The tokens `read`, then the result of the rest of the source.
pub open spec fn after(read: Seq<Token>, rest: Result<Seq<Token>, Failure>) -> Result<
    Seq<Token>,
    Failure,
> {
    match rest {
        Ok(tokens) => Ok(read + tokens),
        Err(failure) => Err(failure),
    }
}

/// The executable result `r` is the result `expected`.
pub open spec fn tokenized(
    r: Result<VecDeque<TokenType>, (Errors, String)>,
    expected: Result<Seq<Token>, Failure>,
) -> bool {
    match r {
        Ok(tokens) => expected == Ok::<Seq<Token>, Failure>(tokens.deep_view()),
        Err(failure) => expected is Err && same_failure(failure, expected->Err_0),
    }
}

/// Reads a whole source text: its tokens or the first failure, and the
/// characters that were passed over on the way.
fn scan(source_code: &str) -> (r: (Result<VecDeque<TokenType>, (Errors, String)>, Vec<char>))
    ensures
        tokenized(r.0, lex(source_code@)),
        r.1@ == unexpected(source_code@),
{
    let chars = trimmed(source_code);
    let mut deque: VecDeque<TokenType> = VecDeque::new();
    let mut passed: Vec<char> = Vec::new();
    let mut i: usize = 0;
    assert(deque.deep_view() =~= Seq::<Token>::empty());
    assert(after(Seq::<Token>::empty(), lex_from(chars@, 0)) == lex_from(chars@, 0)) by {
        if let Ok(tokens) = lex_from(chars@, 0) {
            assert(Seq::<Token>::empty() + tokens =~= tokens);
        }
    }
    assert(passed@ + unexpected_from(chars@, 0) =~= unexpected_from(chars@, 0));
    while i < chars.len()
        invariant
            i <= chars.len(),
            chars@ == trim(source_code@),
            lex_from(chars@, 0) == after(deque.deep_view(), lex_from(chars@, i as int)),
            unexpected_from(chars@, 0) == passed@ + unexpected_from(chars@, i as int),
        decreases chars.len() - i,
    {
        proof {
            lemma_next_advances(chars@, i as int);
        }
        let ghost read = deque.deep_view();
        match next_token(&chars, i) {
            Step::Token(token, next_position) => {
                deque.push_back(token);
                proof {
                    assert(deque.deep_view() =~= read.push(token@));
                    if let Ok(tokens) = lex_from(chars@, next_position as int) {
                        assert(read + (seq![token@] + tokens) =~= read.push(token@) + tokens);
                    }
                }
                i = next_position;
            },
            Step::Skip(next_position) => {
                i = next_position;
            },
            Step::Unexpected(c, next_position) => {
                proof {
                    assert(passed@ + (seq![c] + unexpected_from(chars@, next_position as int))
                        =~= passed@.push(c) + unexpected_from(chars@, next_position as int));
                }
                passed.push(c);
                i = next_position;
            },
            Step::Fail(kind, message) => {
                proof {
                    assert(passed@ + Seq::<char>::empty() =~= passed@);
                }
                return (Err((kind, message)), passed);
            },
        }
    }
    let ghost read = deque.deep_view();
    deque.push_back(TokenType::EOF);
    proof {
        assert(deque.deep_view() =~= read.push(Token::EOF));
        assert(read + seq![Token::EOF] =~= read.push(Token::EOF));
        assert(passed@ + Seq::<char>::empty() =~= passed@);
    }
    (Ok(deque), passed)
}

/// Splits a source text into its tokens, closed by the end-of-input marker,
/// or reports the first failure. Characters that belong to no token are
/// passed over; [`unexpected_chars`] lists them.
pub fn tokenize(source_code: &str) -> (r: Result<VecDeque<TokenType>, (Errors, String)>)
    ensures
        tokenized(r, lex(source_code@)),
        r matches Ok(tokens) ==> well_formed(tokens.deep_view()),
{
    proof {
        lemma_lex_well_formed(source_code@);
    }
    scan(source_code).0
}

/// The characters of a source text that belong to no token, in their
/// order, up to the first failure of tokenizing it.
pub fn unexpected_chars(source_code: &str) -> (r: Vec<char>)
    ensures
        r@ == unexpected(source_code@),
{
    scan(source_code).1
}

} // verus!
