use crate::ast_types::Tree;
use crate::errors::Failure;
use crate::grammar::{
    assignment, assignment_fold, call_member, expression, infix, infix_fold, is_operator, join,
    operand, parse, peek, postfix, primitive, program, rest, Level, Parsed,
};
use crate::lexer_types::Token;
use vstd::prelude::*;

verus! {

/// A token that is an expression by itself: a literal or an identifier.
pub open spec fn is_atom(token: Token) -> bool {
    token is String || token is Int || token is Float || token is Identifier
}

/// The node of an atom.
pub open spec fn leaf(token: Token) -> Tree {
    match token {
        Token::String(text) => Tree::String(text),
        Token::Int(value) => Tree::Int(value),
        Token::Float(text) => Tree::Float(text),
        Token::Identifier(name) => Tree::Identifier(name),
        _ => Tree::Identifier(Seq::empty()),
    }
}

/// A token with which no expression goes on: no operator, no assignment,
/// and no start of a member access, a subscript or a call.
pub open spec fn ends_expression(token: Token) -> bool {
    !(token is Dot || token is OpenBracket || token is OpenParen || token is BinaryOperator
        || token is BitwiseShift || token is ComparisonExpr || token is LogicalExpr
        || token is Equals)
}

/// An atom that no member access, subscript or call follows is a whole
/// expression of the tightest level.
pub proof fn lemma_atom(atom: Token, following: Seq<Token>)
    requires
        is_atom(atom),
        !(peek(following) is Dot || peek(following) is OpenBracket || peek(following)
            is OpenParen),
    ensures
        call_member(seq![atom] + following) == (Ok::<Tree, Failure>(leaf(atom)), following),
{
    let tokens = seq![atom] + following;
    assert(tokens[0] == atom);
    assert(rest(tokens) =~= following);
    assert(primitive(tokens) == (Ok::<Tree, Failure>(leaf(atom)), following));
    assert(postfix(leaf(atom), following) == (Ok::<Tree, Failure>(leaf(atom)), following));
}

/// Where no operator of a level follows its first operand, the operand is
/// the expression of that level.
pub proof fn lemma_single_operand(level: Level, tokens: Seq<Token>)
    requires
        operand(level, tokens).0 is Ok,
        operand(level, tokens).1.len() < tokens.len(),
        !is_operator(level, peek(operand(level, tokens).1)),
        level is Logical ==> !(peek(tokens) is Not),
    ensures
        infix(level, tokens) == operand(level, tokens),
{
    let (first, left) = operand(level, tokens);
    assert(infix_fold(level, first->Ok_0, left) == (Ok::<Tree, Failure>(first->Ok_0), left));
}

/// One step of folding: an operator of the level and its operand are
/// joined to what stands before them, and the folding goes on behind them.
pub proof fn lemma_fold_step(level: Level, so_far: Tree, tokens: Seq<Token>)
    requires
        is_operator(level, peek(tokens)),
        !(peek(rest(tokens)) is EOF),
        operand(level, rest(tokens)).0 is Ok,
        operand(level, rest(tokens)).1.len() < rest(tokens).len(),
    ensures
        infix_fold(level, so_far, tokens) == infix_fold(
            level,
            join(peek(tokens), so_far, operand(level, rest(tokens)).0->Ok_0),
            operand(level, rest(tokens)).1,
        ),
{
}

/// An expression of the additive level that nothing continues is a full
/// expression.
pub proof fn lemma_additive_is_full(tokens: Seq<Token>)
    requires
        infix(Level::Additive, tokens).0 is Ok,
        infix(Level::Additive, tokens).1.len() < tokens.len(),
        ends_expression(peek(infix(Level::Additive, tokens).1)),
        !(peek(tokens) is Not || peek(tokens) is Const || peek(tokens) is Local),
    ensures
        expression(tokens) == infix(Level::Additive, tokens),
{
    let (sum, left) = infix(Level::Additive, tokens);
    assert(operand(Level::Shift, tokens) == infix(Level::Additive, tokens));
    lemma_single_operand(Level::Shift, tokens);
    assert(operand(Level::Comparison, tokens) == infix(Level::Shift, tokens));
    lemma_single_operand(Level::Comparison, tokens);
    assert(operand(Level::Logical, tokens) == infix(Level::Comparison, tokens));
    lemma_single_operand(Level::Logical, tokens);
    assert(assignment_fold(sum->Ok_0, left) == (Ok::<Tree, Failure>(sum->Ok_0), left));
    assert(assignment(tokens) == infix(Level::Additive, tokens));
}

/// A token sequence of one full expression and the end-of-input marker is
/// a program of that expression alone.
pub proof fn lemma_single_statement(tokens: Seq<Token>)
    requires
        expression(tokens).0 is Ok,
        expression(tokens).1 == seq![Token::EOF],
        tokens.len() > 1,
    ensures
        parse(tokens) == Ok::<Tree, Failure>(Tree::Program(seq![expression(tokens).0->Ok_0])),
{
    let statement = expression(tokens).0->Ok_0;
    let left = expression(tokens).1;
    assert(Seq::<Tree>::empty().push(statement) =~= seq![statement]);
    assert(program(seq![statement], left) == (
        Ok::<Tree, Failure>(Tree::Program(seq![statement])),
        left,
    ));
}

/// Multiplication binds tighter than addition: in `a + b * c`, for any
/// atoms and any operators of the two levels, the product is the right
/// operand of the sum.
pub proof fn lemma_multiplication_binds_tighter(
    a: Token,
    plus: Token,
    b: Token,
    times: Token,
    c: Token,
)
    requires
        is_atom(a) && is_atom(b) && is_atom(c),
        is_operator(Level::Additive, plus),
        is_operator(Level::Multiplicative, times),
    ensures
        parse(seq![a, plus, b, times, c, Token::EOF]) == Ok::<Tree, Failure>(
            Tree::Program(seq![join(plus, leaf(a), join(times, leaf(b), leaf(c)))]),
        ),
{
    let end = seq![Token::EOF];
    let t4 = seq![c] + end;
    let t3 = seq![times] + t4;
    let t2 = seq![b] + t3;
    let t1 = seq![plus] + t2;
    let t0 = seq![a] + t1;
    assert(t0 =~= seq![a, plus, b, times, c, Token::EOF]);
    assert(rest(t1) =~= t2 && rest(t3) =~= t4);
    assert(peek(t1) == plus && peek(t2) == b && peek(t3) == times && peek(t4) == c);
    let product = join(times, leaf(b), leaf(c));
    let sum = join(plus, leaf(a), product);
    // The product, from `b` on.
    lemma_atom(c, end);
    lemma_atom(b, t3);
    assert(operand(Level::Multiplicative, t4) == call_member(t4));
    assert(operand(Level::Multiplicative, t2) == call_member(t2));
    lemma_fold_step(Level::Multiplicative, leaf(b), t3);
    assert(infix_fold(Level::Multiplicative, product, end) == (
        Ok::<Tree, Failure>(product),
        end,
    ));
    assert(infix(Level::Multiplicative, t2) == (Ok::<Tree, Failure>(product), end));
    // The sum, from `a` on.
    lemma_atom(a, t1);
    assert(operand(Level::Multiplicative, t0) == call_member(t0));
    lemma_single_operand(Level::Multiplicative, t0);
    assert(operand(Level::Additive, t0) == infix(Level::Multiplicative, t0));
    assert(operand(Level::Additive, t2) == infix(Level::Multiplicative, t2));
    lemma_fold_step(Level::Additive, leaf(a), t1);
    assert(infix_fold(Level::Additive, sum, end) == (Ok::<Tree, Failure>(sum), end));
    assert(infix(Level::Additive, t0) == (Ok::<Tree, Failure>(sum), end));
    lemma_additive_is_full(t0);
    lemma_single_statement(t0);
}

/// Operators of one level group to the left: in `a - b + c`, for any atoms
/// and any two operators of the additive level, the first operation is the
/// left operand of the second.
pub proof fn lemma_addition_groups_left(a: Token, first: Token, b: Token, second: Token, c: Token)
    requires
        is_atom(a) && is_atom(b) && is_atom(c),
        is_operator(Level::Additive, first),
        is_operator(Level::Additive, second),
    ensures
        parse(seq![a, first, b, second, c, Token::EOF]) == Ok::<Tree, Failure>(
            Tree::Program(seq![join(second, join(first, leaf(a), leaf(b)), leaf(c))]),
        ),
{
    let end = seq![Token::EOF];
    let t4 = seq![c] + end;
    let t3 = seq![second] + t4;
    let t2 = seq![b] + t3;
    let t1 = seq![first] + t2;
    let t0 = seq![a] + t1;
    assert(t0 =~= seq![a, first, b, second, c, Token::EOF]);
    assert(rest(t1) =~= t2 && rest(t3) =~= t4);
    assert(peek(t1) == first && peek(t2) == b && peek(t3) == second && peek(t4) == c);
    let inner = join(first, leaf(a), leaf(b));
    let outer = join(second, inner, leaf(c));
    lemma_atom(a, t1);
    lemma_atom(b, t3);
    lemma_atom(c, end);
    assert(operand(Level::Multiplicative, t0) == call_member(t0));
    assert(operand(Level::Multiplicative, t2) == call_member(t2));
    assert(operand(Level::Multiplicative, t4) == call_member(t4));
    lemma_single_operand(Level::Multiplicative, t0);
    lemma_single_operand(Level::Multiplicative, t2);
    lemma_single_operand(Level::Multiplicative, t4);
    assert(operand(Level::Additive, t0) == infix(Level::Multiplicative, t0));
    assert(operand(Level::Additive, t2) == infix(Level::Multiplicative, t2));
    assert(operand(Level::Additive, t4) == infix(Level::Multiplicative, t4));
    lemma_fold_step(Level::Additive, leaf(a), t1);
    lemma_fold_step(Level::Additive, inner, t3);
    assert(infix_fold(Level::Additive, outer, end) == (Ok::<Tree, Failure>(outer), end));
    assert(infix(Level::Additive, t0) == (Ok::<Tree, Failure>(outer), end));
    lemma_additive_is_full(t0);
    lemma_single_statement(t0);
}

} // verus!
