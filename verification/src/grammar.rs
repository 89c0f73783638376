use crate::ast_types::Tree;
use crate::errors::{Errors, Failure};
use crate::lexer_types::{BinaryOperator, BitwiseShift, ComparisonExpr, LogicalExpr, Token};
use vstd::prelude::*;

verus! {

/// What parsing at some level gives: the tree or the failure, and the
/// tokens that are left.
pub type Parsed = (Result<Tree, Failure>, Seq<Token>);

/// The token at the front; past the end stands the end-of-input marker.
pub open spec fn peek(tokens: Seq<Token>) -> Token {
    if tokens.len() > 0 {
        tokens[0]
    } else {
        Token::EOF
    }
}

/// The tokens behind the front one.
pub open spec fn rest(tokens: Seq<Token>) -> Seq<Token> {
    if tokens.len() > 0 {
        tokens.skip(1)
    } else {
        tokens
    }
}

/// A syntax error, with the tokens left where it was met.
pub open spec fn failure(message: Seq<char>, tokens: Seq<Token>) -> Parsed {
    (Err((Errors::SyntaxError, message)), tokens)
}

/// The result `parsed` of parsing `from`, which in success leaves fewer
/// tokens than it was given. Every level of the grammar does
/// ([`crate::grammar_laws::lemma_progress`]), so that this is `parsed`
/// itself; it is written where one level goes on from where another left
/// off, and shows that the grammar ends.
pub open spec fn advancing(parsed: Parsed, from: Seq<Token>) -> Parsed {
    if parsed.0 is Ok && parsed.1.len() >= from.len() {
        failure(Seq::empty(), parsed.1)
    } else {
        parsed
    }
}

/// The text of a token in a message: the name of its variant, with the
/// operator it holds.
pub open spec fn token_name(token: Token) -> Seq<char> {
    match token {
        Token::String(_) => "String"@,
        Token::Int(_) => "Int"@,
        Token::Float(_) => "Float"@,
        Token::Identifier(_) => "Identifier"@,
        Token::Callable => "Callable"@,
        Token::Const => "Const"@,
        Token::Local => "Local"@,
        Token::BinaryOperator(operator) => match operator {
            BinaryOperator::Add => "BinaryOperator(Add)"@,
            BinaryOperator::Substract => "BinaryOperator(Substract)"@,
            BinaryOperator::Multiply => "BinaryOperator(Multiply)"@,
            BinaryOperator::Divide => "BinaryOperator(Divide)"@,
            BinaryOperator::Modulo => "BinaryOperator(Modulo)"@,
        },
        Token::BitwiseShift(direction) => match direction {
            BitwiseShift::Left => "BitwiseShift(Left)"@,
            BitwiseShift::Right => "BitwiseShift(Right)"@,
        },
        Token::Equals => "Equals"@,
        Token::If => "If"@,
        Token::Else => "Else"@,
        Token::ElseIf => "ElseIf"@,
        Token::While => "While"@,
        Token::LogicalExpr(operator) => match operator {
            LogicalExpr::And => "LogicalExpr(And)"@,
            LogicalExpr::Or => "LogicalExpr(Or)"@,
            LogicalExpr::Xor => "LogicalExpr(Xor)"@,
        },
        Token::Not => "Not"@,
        Token::ComparisonExpr(operator) => match operator {
            ComparisonExpr::Equals => "ComparisonExpr(Equals)"@,
            ComparisonExpr::NotEquals => "ComparisonExpr(NotEquals)"@,
            ComparisonExpr::Greater => "ComparisonExpr(Greater)"@,
            ComparisonExpr::GreaterEqual => "ComparisonExpr(GreaterEqual)"@,
            ComparisonExpr::Less => "ComparisonExpr(Less)"@,
            ComparisonExpr::LessEqual => "ComparisonExpr(LessEqual)"@,
        },
        Token::OpenParen => "OpenParen"@,
        Token::ClosedParen => "ClosedParen"@,
        Token::OpenBrace => "OpenBrace"@,
        Token::ClosedBrace => "ClosedBrace"@,
        Token::OpenBracket => "OpenBracket"@,
        Token::ClosedBracket => "ClosedBracket"@,
        Token::Comma => "Comma"@,
        Token::Dot => "Dot"@,
        Token::Colon => "Colon"@,
        Token::SemiColon => "SemiColon"@,
        Token::Monkey => "Monkey"@,
        Token::EOF => "EOF"@,
    }
}

/// The message for a token with which no expression begins.
pub open spec fn unknown_token(token: Token) -> Seq<char> {
    "Unknown Token "@ + token_name(token)
}

/// The levels of the grammar that fold infix operators, from the loosest
/// binding to the tightest.
#[derive(Clone, Copy)]
pub enum Level {
    Logical,
    Comparison,
    Shift,
    Additive,
    Multiplicative,
}

/// The place of a level in the order of recursion.
pub open spec fn rank(level: Level) -> int {
    match level {
        Level::Logical => 7,
        Level::Comparison => 6,
        Level::Shift => 5,
        Level::Additive => 4,
        Level::Multiplicative => 3,
    }
}

/// The token is an infix operator of the level.
pub open spec fn is_operator(level: Level, token: Token) -> bool {
    match level {
        Level::Logical => token is LogicalExpr,
        Level::Comparison => token is ComparisonExpr,
        Level::Shift => token is BitwiseShift,
        Level::Additive => token matches Token::BinaryOperator(operator) && (operator
            is Add || operator is Substract),
        Level::Multiplicative => token matches Token::BinaryOperator(operator) && (operator
            is Multiply || operator is Divide || operator is Modulo),
    }
}

/// The node that an infix operator makes of its two operands.
pub open spec fn join(operator: Token, left: Tree, right: Tree) -> Tree {
    match operator {
        Token::LogicalExpr(operator) => Tree::LogicalExpr {
            operator,
            left: Box::new(left),
            right: Box::new(right),
        },
        Token::ComparisonExpr(operator) => Tree::Comparison {
            operator,
            left: Box::new(left),
            right: Box::new(right),
        },
        Token::BitwiseShift(shift_direction) => Tree::BitwiseShift {
            shift_direction,
            left: Box::new(left),
            right: Box::new(right),
        },
        Token::BinaryOperator(operator) => Tree::BinaryOperator {
            operator,
            left: Box::new(left),
            right: Box::new(right),
        },
        _ => left,
    }
}

/// The message for an infix operator of the level that no operand follows.
pub open spec fn missing_operand(level: Level) -> Seq<char> {
    match level {
        Level::Logical => "missing value after the Logical operator"@,
        Level::Comparison => "missing value after the Comparison operator"@,
        Level::Shift => "missing value after the BitShift operator"@,
        Level::Additive => "missing value after the Binary operator"@,
        Level::Multiplicative => "missing value after the Binary operator"@,
    }
}

/// The node that a declaration makes: a constant is a
/// `VariableDeclaration`, a local an `Assignment` to its identifier.
pub open spec fn declared(constant: bool, name: Seq<char>, value: Tree) -> Tree {
    if constant {
        Tree::VariableDeclaration { identifier: name, right: Box::new(value), constant: true }
    } else {
        Tree::Assignment {
            identifier: Box::new(Tree::Identifier(name)),
            right: Box::new(value),
            local: true,
        }
    }
}

/// The message for a declaration whose keyword no identifier follows.
pub open spec fn expected_name(constant: bool) -> Seq<char> {
    if constant {
        "Expected a Identifier after the const keyword"@
    } else {
        "Expected a Identifier after the local keyword"@
    }
}

/// The value of a local that is declared without one.
pub open spec fn empty_value() -> Tree {
    Tree::Identifier("empty"@)
}

/// A full expression: the loosest level of the grammar.
pub open spec fn expression(tokens: Seq<Token>) -> Parsed
    decreases tokens.len(), 20int,
{
    assignment(tokens)
}

/// A declaration, or a logical expression and the assignments to it.
pub open spec fn assignment(tokens: Seq<Token>) -> Parsed
    decreases tokens.len(), 19int,
{
    if peek(tokens) is Const || peek(tokens) is Local {
        declaration(peek(tokens) is Const, rest(tokens))
    } else {
        let (target, left) = advancing(infix(Level::Logical, tokens), tokens);
        match target {
            Ok(target) => assignment_fold(target, left),
            Err(failure) => (Err(failure), left),
        }
    }
}

/// What follows the keyword of a declaration: in
/// `const <identifier> = <expression>` the value is owed, in
/// `local <identifier> [= <expression>]` it may be left out.
pub open spec fn declaration(constant: bool, tokens: Seq<Token>) -> Parsed
    decreases tokens.len(), 18int,
{
    let (name, left) = advancing(primitive(tokens), tokens);
    match name {
        Err(failure) => (Err(failure), left),
        Ok(Tree::Identifier(name)) => {
            if peek(left) is Equals {
                let (value, left) = expression(rest(left));
                match value {
                    Ok(value) => (Ok(declared(constant, name, value)), left),
                    Err(failure) => (Err(failure), left),
                }
            } else if constant {
                failure("Constant declaration needs a value to be declared"@, left)
            } else {
                (Ok(declared(false, name, empty_value())), left)
            }
        },
        Ok(_) => failure(expected_name(constant), left),
    }
}

/// The assignments `= <value>` that follow a target; each value is read at
/// the level of the shifts.
pub open spec fn assignment_fold(target: Tree, tokens: Seq<Token>) -> Parsed
    decreases tokens.len(), 0int,
{
    if peek(tokens) is Equals {
        let after = rest(tokens);
        if peek(after) is EOF {
            failure(missing_operand(Level::Comparison), after)
        } else {
            let (value, left) = advancing(infix(Level::Shift, after), after);
            match value {
                Ok(value) => assignment_fold(
                    Tree::Assignment {
                        identifier: Box::new(target),
                        right: Box::new(value),
                        local: false,
                    },
                    left,
                ),
                Err(failure) => (Err(failure), left),
            }
        }
    } else {
        (Ok(target), tokens)
    }
}

/// An operand of a level: an expression of the next tighter level.
pub open spec fn operand(level: Level, tokens: Seq<Token>) -> Parsed
    decreases tokens.len(), 2 * rank(level),
{
    match level {
        Level::Logical => infix(Level::Comparison, tokens),
        Level::Comparison => infix(Level::Shift, tokens),
        Level::Shift => infix(Level::Additive, tokens),
        Level::Additive => infix(Level::Multiplicative, tokens),
        Level::Multiplicative => call_member(tokens),
    }
}

/// An expression of a level: operands joined by the operators of the level,
/// grouped to the left. At the logical level `not` and one comparison stand
/// for a whole expression.
pub open spec fn infix(level: Level, tokens: Seq<Token>) -> Parsed
    decreases tokens.len(), 2 * rank(level) + 1,
{
    if level is Logical && peek(tokens) is Not {
        let after = rest(tokens);
        if peek(after) is EOF {
            failure("missing value after the not operator"@, after)
        } else {
            let (negated, left) = infix(Level::Comparison, after);
            match negated {
                Ok(negated) => (Ok(Tree::Not(Box::new(negated))), left),
                Err(failure) => (Err(failure), left),
            }
        }
    } else {
        let (first, left) = advancing(operand(level, tokens), tokens);
        match first {
            Ok(first) => infix_fold(level, first, left),
            Err(failure) => (Err(failure), left),
        }
    }
}

/// The operators of a level, each with its operand, that follow `so_far`.
pub open spec fn infix_fold(level: Level, so_far: Tree, tokens: Seq<Token>) -> Parsed
    decreases tokens.len(), 0int,
{
    if is_operator(level, peek(tokens)) {
        let after = rest(tokens);
        if peek(after) is EOF {
            failure(missing_operand(level), after)
        } else {
            let (right, left) = advancing(operand(level, after), after);
            match right {
                Ok(right) => infix_fold(level, join(peek(tokens), so_far, right), left),
                Err(failure) => (Err(failure), left),
            }
        }
    } else {
        (Ok(so_far), tokens)
    }
}

/// A primary expression and the member accesses, subscripts and calls that
/// follow it.
pub open spec fn call_member(tokens: Seq<Token>) -> Parsed
    decreases tokens.len(), 2int,
{
    let (first, left) = advancing(primitive(tokens), tokens);
    match first {
        Ok(first) => postfix(first, left),
        Err(failure) => (Err(failure), left),
    }
}

/// The run of `.<identifier>`, `[<expression>]` and `(<arguments>)` that
/// follows `so_far`.
pub open spec fn postfix(so_far: Tree, tokens: Seq<Token>) -> Parsed
    decreases tokens.len(), 0int,
{
    if peek(tokens) is Dot {
        let (member, left) = advancing(primitive(rest(tokens)), rest(tokens));
        match member {
            Ok(member) => if member is Identifier {
                postfix(
                    Tree::MemberExpression { left: Box::new(so_far), right: Box::new(member) },
                    left,
                )
            } else {
                failure("Expected a identifier after the dot expression"@, left)
            },
            Err(failure) => (Err(failure), left),
        }
    } else if peek(tokens) is OpenBracket {
        let after = rest(tokens);
        if peek(after) is ClosedBracket {
            failure("Expected an expression inside of the square brackets"@, after)
        } else {
            let (index, left) = advancing(expression(after), after);
            match index {
                Ok(index) => if peek(left) is ClosedBracket {
                    postfix(
                        Tree::MemberExpression { left: Box::new(so_far), right: Box::new(index) },
                        rest(left),
                    )
                } else {
                    failure("Expected a closing bracket after the membership expression"@, left)
                },
                Err(failure) => (Err(failure), left),
            }
        }
    } else if peek(tokens) is OpenParen {
        let after = rest(tokens);
        if peek(after) is ClosedParen {
            postfix(
                Tree::CallExpression { left: Box::new(so_far), arguments: Seq::empty() },
                rest(after),
            )
        } else {
            let (first, left) = advancing(expression(after), after);
            match first {
                Ok(first) => arguments(so_far, seq![first], left),
                Err(failure) => (Err(failure), left),
            }
        }
    } else {
        (Ok(so_far), tokens)
    }
}

/// The further arguments of a call of `callee`, each after a comma, the
/// closing parenthesis, and what follows the call.
pub open spec fn arguments(callee: Tree, list: Seq<Tree>, tokens: Seq<Token>) -> Parsed
    decreases tokens.len(), 0int,
{
    if peek(tokens) is Comma {
        let (argument, left) = advancing(expression(rest(tokens)), rest(tokens));
        match argument {
            Ok(argument) => arguments(callee, list.push(argument), left),
            Err(failure) => (Err(failure), left),
        }
    } else if peek(tokens) is ClosedParen {
        postfix(Tree::CallExpression { left: Box::new(callee), arguments: list }, rest(tokens))
    } else {
        failure("Expected a closing paren after the call expression"@, tokens)
    }
}

/// A literal, an identifier or an `if` expression.
pub open spec fn primitive(tokens: Seq<Token>) -> Parsed
    decreases tokens.len(), 1int,
{
    if tokens.len() == 0 {
        failure("Unexpected end of tokens"@, tokens)
    } else {
        match tokens[0] {
            Token::String(text) => (Ok(Tree::String(text)), rest(tokens)),
            Token::Int(value) => (Ok(Tree::Int(value)), rest(tokens)),
            Token::Float(text) => (Ok(Tree::Float(text)), rest(tokens)),
            Token::Identifier(name) => (Ok(Tree::Identifier(name)), rest(tokens)),
            Token::If => conditional(rest(tokens)),
            other => failure(unknown_token(other), rest(tokens)),
        }
    }
}

/// What follows the keyword `if`: the condition and the body in braces.
pub open spec fn conditional(tokens: Seq<Token>) -> Parsed
    decreases tokens.len(), 21int,
{
    let (check, left) = advancing(expression(tokens), tokens);
    match check {
        Ok(check) => if peek(left) is OpenBrace {
            block(check, Seq::empty(), rest(left))
        } else {
            failure("Expected a body after the if statement"@, left)
        },
        Err(failure) => (Err(failure), left),
    }
}

/// The statements of the body of an `if` that follow `body`, up to the
/// closing brace.
pub open spec fn block(check: Tree, body: Seq<Tree>, tokens: Seq<Token>) -> Parsed
    decreases tokens.len(), 21int,
{
    if peek(tokens) is ClosedBrace {
        (Ok(Tree::IfExpression { check: Box::new(check), body }), rest(tokens))
    } else if peek(tokens) is EOF {
        failure("Expected a closing brace for the if block"@, tokens)
    } else {
        let (statement, left) = advancing(expression(tokens), tokens);
        match statement {
            Ok(statement) => block(check, body.push(statement), left),
            Err(failure) => (Err(failure), left),
        }
    }
}

/// The statements of a program that follow `body`: expressions, until only
/// the end-of-input marker is left.
pub open spec fn program(body: Seq<Tree>, tokens: Seq<Token>) -> Parsed
    decreases tokens.len(),
{
    if tokens.len() > 1 {
        let (statement, left) = advancing(expression(tokens), tokens);
        match statement {
            Ok(statement) => program(body.push(statement), left),
            Err(failure) => (Err(failure), left),
        }
    } else {
        (Ok(Tree::Program(body)), tokens)
    }
}

/// What parsing a token sequence gives: the program, or the first failure.
pub open spec fn parse(tokens: Seq<Token>) -> Result<Tree, Failure> {
    program(Seq::empty(), tokens).0
}

} // verus!
