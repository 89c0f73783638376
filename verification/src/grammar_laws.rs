use crate::ast_types::Tree;
use crate::grammar::{
    advancing, arguments, assignment, assignment_fold, block, call_member, conditional,
    declaration, expression, infix, infix_fold, is_operator, join, operand, parse, peek,
    postfix, primitive, program, rank, rest, Level, Parsed,
};
use crate::lexer_types::{well_formed, Token};
use vstd::prelude::*;

verus! {

/// `left` is what remains of `tokens` when some tokens are taken from its
/// front, none of them the end-of-input marker.
pub open spec fn remains(left: Seq<Token>, tokens: Seq<Token>) -> bool {
    &&& left.len() <= tokens.len()
    &&& left == tokens.skip(tokens.len() - left.len())
    &&& forall|k: int| 0 <= k < tokens.len() - left.len() ==> !(#[trigger] tokens[k] is EOF)
}

/// A result of parsing `tokens` that, in success, took tokens from the
/// front and none of them the end-of-input marker.
pub open spec fn takes(parsed: Parsed, tokens: Seq<Token>) -> bool {
    parsed.0 is Ok ==> remains(parsed.1, tokens)
}

/// A result of parsing `tokens` that, in success, took at least one token
/// from the front and none that is the end-of-input marker.
pub open spec fn consumes(parsed: Parsed, tokens: Seq<Token>) -> bool {
    parsed.0 is Ok ==> remains(parsed.1, tokens) && parsed.1.len() < tokens.len()
}

/// Where nothing is taken, everything remains.
pub proof fn lemma_remains_all(tokens: Seq<Token>)
    ensures
        remains(tokens, tokens),
{
    assert(tokens.skip(0) =~= tokens);
}

/// Taking a front token that is not the end-of-input marker leaves the
/// tokens behind it.
pub proof fn lemma_remains_rest(tokens: Seq<Token>)
    requires
        !(peek(tokens) is EOF),
    ensures
        remains(rest(tokens), tokens),
        rest(tokens).len() < tokens.len(),
{
}

/// What remains of what remains of a token sequence remains of the
/// sequence.
pub proof fn lemma_remains_chain(left: Seq<Token>, middle: Seq<Token>, tokens: Seq<Token>)
    requires
        remains(left, middle),
        remains(middle, tokens),
    ensures
        remains(left, tokens),
{
    let a = tokens.len() - middle.len();
    let b = middle.len() - left.len();
    assert(left =~= tokens.skip(a + b));
    assert forall|k: int| 0 <= k < a + b implies !(#[trigger] tokens[k] is EOF) by {
        if k >= a {
            assert(tokens[k] == middle[k - a]);
        }
    }
}

/// What remains of a well-formed token sequence, where anything does, is
/// well formed.
pub proof fn lemma_remains_well_formed(left: Seq<Token>, tokens: Seq<Token>)
    requires
        well_formed(tokens),
        remains(left, tokens),
    ensures
        well_formed(left),
{
    let taken = tokens.len() - left.len();
    if taken == tokens.len() {
        assert(tokens[taken - 1] is EOF);
    }
    assert forall|k: int| 0 <= k < left.len() - 1 implies !(#[trigger] left[k] is EOF) by {
        assert(left[k] == tokens[k + taken]);
    }
}

/// A full expression takes at least one token and not the end-of-input
/// marker.
pub proof fn lemma_expression(tokens: Seq<Token>)
    ensures
        consumes(expression(tokens), tokens),
    decreases tokens.len(), 20int,
{
    lemma_assignment(tokens);
}

/// An assignment or declaration takes at least one token and not the
/// end-of-input marker.
pub proof fn lemma_assignment(tokens: Seq<Token>)
    ensures
        consumes(assignment(tokens), tokens),
    decreases tokens.len(), 19int,
{
    if peek(tokens) is Const || peek(tokens) is Local {
        let after = rest(tokens);
        lemma_remains_rest(tokens);
        lemma_declaration(peek(tokens) is Const, after);
        if let Ok(_) = declaration(peek(tokens) is Const, after).0 {
            lemma_remains_chain(declaration(peek(tokens) is Const, after).1, after, tokens);
        }
    } else {
        lemma_infix(Level::Logical, tokens);
        let (target, left) = infix(Level::Logical, tokens);
        if let Ok(target) = target {
            lemma_assignment_fold(target, left);
            if let Ok(_) = assignment_fold(target, left).0 {
                lemma_remains_chain(assignment_fold(target, left).1, left, tokens);
            }
        }
    }
}

/// What follows the keyword of a declaration takes at least one token and
/// not the end-of-input marker.
pub proof fn lemma_declaration(constant: bool, tokens: Seq<Token>)
    ensures
        consumes(declaration(constant, tokens), tokens),
    decreases tokens.len(), 18int,
{
    lemma_primitive(tokens);
    let (name, left) = primitive(tokens);
    if let Ok(Tree::Identifier(_)) = name {
        if peek(left) is Equals {
            lemma_remains_rest(left);
            lemma_expression(rest(left));
            let (value, last) = expression(rest(left));
            if let Ok(_) = value {
                lemma_remains_chain(last, rest(left), left);
                lemma_remains_chain(last, left, tokens);
            }
        }
    }
}

/// The assignments that follow a target do not take the end-of-input
/// marker.
pub proof fn lemma_assignment_fold(target: Tree, tokens: Seq<Token>)
    ensures
        takes(assignment_fold(target, tokens), tokens),
    decreases tokens.len(), 0int,
{
    lemma_remains_all(tokens);
    if peek(tokens) is Equals {
        let after = rest(tokens);
        lemma_remains_rest(tokens);
        if !(peek(after) is EOF) {
            lemma_infix(Level::Shift, after);
            let (value, left) = infix(Level::Shift, after);
            if let Ok(value) = value {
                let node = Tree::Assignment {
                    identifier: Box::new(target),
                    right: Box::new(value),
                    local: false,
                };
                lemma_assignment_fold(node, left);
                lemma_remains_chain(left, after, tokens);
                if let Ok(_) = assignment_fold(node, left).0 {
                    lemma_remains_chain(assignment_fold(node, left).1, left, tokens);
                }
            }
        }
    }
}

/// An operand of a level takes at least one token and not the
/// end-of-input marker.
pub proof fn lemma_operand(level: Level, tokens: Seq<Token>)
    ensures
        consumes(operand(level, tokens), tokens),
    decreases tokens.len(), 2 * rank(level),
{
    match level {
        Level::Logical => lemma_infix(Level::Comparison, tokens),
        Level::Comparison => lemma_infix(Level::Shift, tokens),
        Level::Shift => lemma_infix(Level::Additive, tokens),
        Level::Additive => lemma_infix(Level::Multiplicative, tokens),
        Level::Multiplicative => lemma_call_member(tokens),
    }
}

/// An expression of a level takes at least one token and not the
/// end-of-input marker.
pub proof fn lemma_infix(level: Level, tokens: Seq<Token>)
    ensures
        consumes(infix(level, tokens), tokens),
    decreases tokens.len(), 2 * rank(level) + 1,
{
    if level is Logical && peek(tokens) is Not {
        let after = rest(tokens);
        lemma_remains_rest(tokens);
        if !(peek(after) is EOF) {
            lemma_infix(Level::Comparison, after);
            let (negated, left) = infix(Level::Comparison, after);
            if let Ok(_) = negated {
                lemma_remains_chain(left, after, tokens);
            }
        }
    } else {
        lemma_operand(level, tokens);
        let (first, left) = operand(level, tokens);
        if let Ok(first) = first {
            lemma_infix_fold(level, first, left);
            if let Ok(_) = infix_fold(level, first, left).0 {
                lemma_remains_chain(infix_fold(level, first, left).1, left, tokens);
            }
        }
    }
}

/// The operators and operands that follow a first operand do not take the
/// end-of-input marker.
pub proof fn lemma_infix_fold(level: Level, so_far: Tree, tokens: Seq<Token>)
    ensures
        takes(infix_fold(level, so_far, tokens), tokens),
    decreases tokens.len(), 0int,
{
    lemma_remains_all(tokens);
    if is_operator(level, peek(tokens)) {
        let after = rest(tokens);
        lemma_remains_rest(tokens);
        if !(peek(after) is EOF) {
            lemma_operand(level, after);
            let (right, left) = operand(level, after);
            if let Ok(right) = right {
                let node = join(peek(tokens), so_far, right);
                lemma_infix_fold(level, node, left);
                lemma_remains_chain(left, after, tokens);
                if let Ok(_) = infix_fold(level, node, left).0 {
                    lemma_remains_chain(infix_fold(level, node, left).1, left, tokens);
                }
            }
        }
    }
}

/// A primary expression with what follows it takes at least one token and
/// not the end-of-input marker.
pub proof fn lemma_call_member(tokens: Seq<Token>)
    ensures
        consumes(call_member(tokens), tokens),
    decreases tokens.len(), 2int,
{
    lemma_primitive(tokens);
    let (first, left) = primitive(tokens);
    if let Ok(first) = first {
        lemma_postfix(first, left);
        if let Ok(_) = postfix(first, left).0 {
            lemma_remains_chain(postfix(first, left).1, left, tokens);
        }
    }
}

/// A run of member accesses, subscripts and calls does not take the
/// end-of-input marker.
pub proof fn lemma_postfix(so_far: Tree, tokens: Seq<Token>)
    ensures
        takes(postfix(so_far, tokens), tokens),
    decreases tokens.len(), 0int,
{
    lemma_remains_all(tokens);
    if peek(tokens) is Dot {
        lemma_remains_rest(tokens);
        lemma_primitive(rest(tokens));
        let (member, left) = primitive(rest(tokens));
        if let Ok(member) = member {
            if member is Identifier {
                let node = Tree::MemberExpression {
                    left: Box::new(so_far),
                    right: Box::new(member),
                };
                lemma_postfix(node, left);
                lemma_remains_chain(left, rest(tokens), tokens);
                if let Ok(_) = postfix(node, left).0 {
                    lemma_remains_chain(postfix(node, left).1, left, tokens);
                }
            }
        }
    } else if peek(tokens) is OpenBracket {
        let after = rest(tokens);
        lemma_remains_rest(tokens);
        if !(peek(after) is ClosedBracket) {
            lemma_expression(after);
            let (index, left) = expression(after);
            if let Ok(index) = index {
                if peek(left) is ClosedBracket {
                    let node = Tree::MemberExpression {
                        left: Box::new(so_far),
                        right: Box::new(index),
                    };
                    lemma_remains_rest(left);
                    lemma_postfix(node, rest(left));
                    lemma_remains_chain(left, after, tokens);
                    lemma_remains_chain(rest(left), left, tokens);
                    if let Ok(_) = postfix(node, rest(left)).0 {
                        lemma_remains_chain(postfix(node, rest(left)).1, rest(left), tokens);
                    }
                }
            }
        }
    } else if peek(tokens) is OpenParen {
        let after = rest(tokens);
        lemma_remains_rest(tokens);
        if peek(after) is ClosedParen {
            let node = Tree::CallExpression { left: Box::new(so_far), arguments: Seq::empty() };
            lemma_remains_rest(after);
            lemma_postfix(node, rest(after));
            lemma_remains_chain(rest(after), after, tokens);
            if let Ok(_) = postfix(node, rest(after)).0 {
                lemma_remains_chain(postfix(node, rest(after)).1, rest(after), tokens);
            }
        } else {
            lemma_expression(after);
            let (first, left) = expression(after);
            if let Ok(first) = first {
                lemma_arguments(so_far, seq![first], left);
                lemma_remains_chain(left, after, tokens);
                if let Ok(_) = arguments(so_far, seq![first], left).0 {
                    lemma_remains_chain(arguments(so_far, seq![first], left).1, left, tokens);
                }
            }
        }
    }
}

/// The arguments of a call, and what follows the call, do not take the
/// end-of-input marker.
pub proof fn lemma_arguments(callee: Tree, list: Seq<Tree>, tokens: Seq<Token>)
    ensures
        takes(arguments(callee, list, tokens), tokens),
    decreases tokens.len(), 0int,
{
    if peek(tokens) is Comma {
        lemma_remains_rest(tokens);
        lemma_expression(rest(tokens));
        let (argument, left) = expression(rest(tokens));
        if let Ok(argument) = argument {
            lemma_arguments(callee, list.push(argument), left);
            lemma_remains_chain(left, rest(tokens), tokens);
            if let Ok(_) = arguments(callee, list.push(argument), left).0 {
                lemma_remains_chain(
                    arguments(callee, list.push(argument), left).1,
                    left,
                    tokens,
                );
            }
        }
    } else if peek(tokens) is ClosedParen {
        let node = Tree::CallExpression { left: Box::new(callee), arguments: list };
        lemma_remains_rest(tokens);
        lemma_postfix(node, rest(tokens));
        if let Ok(_) = postfix(node, rest(tokens)).0 {
            lemma_remains_chain(postfix(node, rest(tokens)).1, rest(tokens), tokens);
        }
    }
}

/// A primary expression takes at least one token and not the end-of-input
/// marker.
pub proof fn lemma_primitive(tokens: Seq<Token>)
    ensures
        consumes(primitive(tokens), tokens),
    decreases tokens.len(), 1int,
{
    if tokens.len() > 0 {
        if tokens[0] is If {
            lemma_remains_rest(tokens);
            lemma_conditional(rest(tokens));
            if let Ok(_) = conditional(rest(tokens)).0 {
                lemma_remains_chain(conditional(rest(tokens)).1, rest(tokens), tokens);
            }
        } else if !(tokens[0] is EOF) {
            lemma_remains_rest(tokens);
        }
    }
}

/// The condition and body of an `if` take at least one token and not the
/// end-of-input marker.
pub proof fn lemma_conditional(tokens: Seq<Token>)
    ensures
        consumes(conditional(tokens), tokens),
    decreases tokens.len(), 21int,
{
    lemma_expression(tokens);
    let (check, left) = expression(tokens);
    if let Ok(check) = check {
        if peek(left) is OpenBrace {
            lemma_remains_rest(left);
            lemma_block(check, Seq::empty(), rest(left));
            lemma_remains_chain(rest(left), left, tokens);
            if let Ok(_) = block(check, Seq::empty(), rest(left)).0 {
                lemma_remains_chain(block(check, Seq::empty(), rest(left)).1, rest(left), tokens);
            }
        }
    }
}

/// The body of an `if` takes at least its closing brace and not the
/// end-of-input marker.
pub proof fn lemma_block(check: Tree, body: Seq<Tree>, tokens: Seq<Token>)
    ensures
        consumes(block(check, body, tokens), tokens),
    decreases tokens.len(), 21int,
{
    if peek(tokens) is ClosedBrace {
        lemma_remains_rest(tokens);
    } else if !(peek(tokens) is EOF) {
        lemma_expression(tokens);
        let (statement, left) = expression(tokens);
        if let Ok(statement) = statement {
            lemma_block(check, body.push(statement), left);
            if let Ok(_) = block(check, body.push(statement), left).0 {
                lemma_remains_chain(block(check, body.push(statement), left).1, left, tokens);
            }
        }
    }
}

/// Every level of the grammar that succeeds has taken at least one token,
/// and never the end-of-input marker; so [`advancing`] changes no result.
pub proof fn lemma_progress(level: Level, tokens: Seq<Token>)
    ensures
        consumes(expression(tokens), tokens),
        consumes(infix(level, tokens), tokens),
        consumes(operand(level, tokens), tokens),
        consumes(call_member(tokens), tokens),
        consumes(primitive(tokens), tokens),
        advancing(expression(tokens), tokens) == expression(tokens),
        advancing(infix(level, tokens), tokens) == infix(level, tokens),
        advancing(operand(level, tokens), tokens) == operand(level, tokens),
        advancing(primitive(tokens), tokens) == primitive(tokens),
{
    lemma_expression(tokens);
    lemma_infix(level, tokens);
    lemma_operand(level, tokens);
    lemma_call_member(tokens);
    lemma_primitive(tokens);
}

/// The statements of a program are parsed without taking the end-of-input
/// marker.
pub proof fn lemma_program(body: Seq<Tree>, tokens: Seq<Token>)
    ensures
        takes(program(body, tokens), tokens),
        program(body, tokens).0 matches Ok(tree) ==> tree is Program && program(
            body,
            tokens,
        ).1.len() <= 1,
    decreases tokens.len(),
{
    lemma_remains_all(tokens);
    if tokens.len() > 1 {
        lemma_expression(tokens);
        let (statement, left) = expression(tokens);
        if let Ok(statement) = statement {
            lemma_program(body.push(statement), left);
            if let Ok(_) = program(body.push(statement), left).0 {
                lemma_remains_chain(program(body.push(statement), left).1, left, tokens);
            }
        }
    }
}

/// Parsing a well-formed token sequence never takes the end-of-input
/// marker: where it succeeds, the result is a program and the marker alone
/// is left.
pub proof fn lemma_parse_leaves_the_end(tokens: Seq<Token>)
    requires
        well_formed(tokens),
    ensures
        parse(tokens) matches Ok(tree) ==> tree is Program && program(Seq::empty(), tokens).1
            == seq![Token::EOF],
{
    lemma_program(Seq::empty(), tokens);
    let left = program(Seq::empty(), tokens).1;
    if parse(tokens) is Ok {
        lemma_remains_well_formed(left, tokens);
        assert(left =~= seq![Token::EOF]);
    }
}

} // verus!
