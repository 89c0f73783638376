use crate::ast_types::{boxed_trees, lemma_view_of_children, trees, Ast, Tree};
use crate::errors::{same_failure, Errors, Failure};
use crate::grammar::{
    arguments, assignment, assignment_fold, block, call_member, expression, infix, infix_fold,
    operand, peek, postfix, primitive, program, rest, token_name, Level, Parsed,
};
use crate::grammar_laws::{lemma_parse_leaves_the_end, lemma_program};
use crate::lexer::tokenize;
use crate::lexical::lex;
use crate::lexer_types::{
    well_formed, BinaryOperator, BitwiseShift, ComparisonExpr, LogicalExpr, Token, TokenType,
};
use std::collections::VecDeque;
use vstd::prelude::*;

verus! {

/// A parser over the tokens of one source text. It owns the tokens and
/// takes them from the front as it builds the tree.
pub struct Parser {
    tokens: VecDeque<TokenType>,
}

impl View for Parser {
    type V = Seq<Token>;

    /// The tokens that the parser still holds.
    closed spec fn view(&self) -> Seq<Token> {
        self.tokens.deep_view()
    }
}

/// The executable result `r` is the result `expected`.
pub open spec fn parsed_as(
    r: Result<Ast, (Errors, String)>,
    expected: Result<Tree, Failure>,
) -> bool {
    match r {
        Ok(node) => expected == Ok::<Tree, Failure>(node@),
        Err(failure) => expected is Err && same_failure(failure, expected->Err_0),
    }
}

/// A level of the grammar was parsed as `expected` says: `r` is its result
/// and `left` its remaining tokens, which are no more than the tokens
/// `from` that it was given, and fewer where it succeeded.
pub open spec fn outcome(
    r: Result<Ast, (Errors, String)>,
    left: Seq<Token>,
    expected: Parsed,
    from: Seq<Token>,
) -> bool {
    &&& parsed_as(r, expected.0)
    &&& left == expected.1
    &&& left.len() <= from.len()
    &&& r is Ok ==> left.len() < from.len()
}

/// One link of a chain of accesses and calls was parsed, where the chain
/// from the tokens `from` on gives `expected`: in success `r` is the node
/// so far and the chain goes on from the fewer tokens `left`; a failure is
/// that of the chain.
pub open spec fn extends(
    r: Result<Ast, (Errors, String)>,
    left: Seq<Token>,
    expected: Parsed,
    from: Seq<Token>,
) -> bool {
    match r {
        Ok(node) => left.len() < from.len() && expected == postfix(node@, left),
        Err(failure) => outcome(r, left, expected, from),
    }
}

/// The text of a token in a message.
fn name_of(token: &TokenType) -> (name: String)
    ensures
        name@ == token_name(token@),
{
    match token {
        TokenType::String(_) => "String".to_string(),
        TokenType::Int(_) => "Int".to_string(),
        TokenType::Float(_) => "Float".to_string(),
        TokenType::Identifier(_) => "Identifier".to_string(),
        TokenType::Callable => "Callable".to_string(),
        TokenType::Const => "Const".to_string(),
        TokenType::Local => "Local".to_string(),
        TokenType::BinaryOperator(operator) => match operator {
            BinaryOperator::Add => "BinaryOperator(Add)".to_string(),
            BinaryOperator::Substract => "BinaryOperator(Substract)".to_string(),
            BinaryOperator::Multiply => "BinaryOperator(Multiply)".to_string(),
            BinaryOperator::Divide => "BinaryOperator(Divide)".to_string(),
            BinaryOperator::Modulo => "BinaryOperator(Modulo)".to_string(),
        },
        TokenType::BitwiseShift(direction) => match direction {
            BitwiseShift::Left => "BitwiseShift(Left)".to_string(),
            BitwiseShift::Right => "BitwiseShift(Right)".to_string(),
        },
        TokenType::Equals => "Equals".to_string(),
        TokenType::If => "If".to_string(),
        TokenType::Else => "Else".to_string(),
        TokenType::ElseIf => "ElseIf".to_string(),
        TokenType::While => "While".to_string(),
        TokenType::LogicalExpr(operator) => match operator {
            LogicalExpr::And => "LogicalExpr(And)".to_string(),
            LogicalExpr::Or => "LogicalExpr(Or)".to_string(),
            LogicalExpr::Xor => "LogicalExpr(Xor)".to_string(),
        },
        TokenType::Not => "Not".to_string(),
        TokenType::ComparisonExpr(operator) => match operator {
            ComparisonExpr::Equals => "ComparisonExpr(Equals)".to_string(),
            ComparisonExpr::NotEquals => {
                "ComparisonExpr(NotEquals)".to_string()
            },
            ComparisonExpr::Greater => "ComparisonExpr(Greater)".to_string(),
            ComparisonExpr::GreaterEqual => {
                "ComparisonExpr(GreaterEqual)".to_string()
            },
            ComparisonExpr::Less => "ComparisonExpr(Less)".to_string(),
            ComparisonExpr::LessEqual => "ComparisonExpr(LessEqual)".to_string(),
        },
        TokenType::OpenParen => "OpenParen".to_string(),
        TokenType::ClosedParen => "ClosedParen".to_string(),
        TokenType::OpenBrace => "OpenBrace".to_string(),
        TokenType::ClosedBrace => "ClosedBrace".to_string(),
        TokenType::OpenBracket => "OpenBracket".to_string(),
        TokenType::ClosedBracket => "ClosedBracket".to_string(),
        TokenType::Comma => "Comma".to_string(),
        TokenType::Dot => "Dot".to_string(),
        TokenType::Colon => "Colon".to_string(),
        TokenType::SemiColon => "SemiColon".to_string(),
        TokenType::Monkey => "Monkey".to_string(),
        TokenType::EOF => "EOF".to_string(),
    }
}

/// A syntax error with the given message.
fn syntax_error(message: &str) -> (r: Result<Ast, (Errors, String)>)
    ensures
        r matches Err(failure) && failure.0 == Errors::SyntaxError && failure.1@ == message@,
{
    Err((Errors::SyntaxError, message.to_string()))
}

impl Parser {
    /// Tokenizes the source text and holds its tokens for parsing.
    pub fn new(source_code: &str) -> (r: Result<Self, (Errors, String)>)
        ensures
            match r {
                Ok(parser) => lex(source_code@) == Ok::<Seq<Token>, Failure>(parser@)
                    && well_formed(parser@),
                Err(failure) => lex(source_code@) is Err && same_failure(
                    failure,
                    lex(source_code@)->Err_0,
                ),
            },
    {
        match tokenize(source_code) {
            Ok(tokens) => Ok(Self { tokens }),
            Err(failure) => Err(failure),
        }
    }

    /// Hands over the tokens that the parser still holds.
    pub fn dump_tokens(self) -> (tokens: VecDeque<TokenType>)
        ensures
            tokens.deep_view() == self@,
    {
        self.tokens
    }

    /// The token at the front, if there is one.
    fn front(&self) -> (r: Option<&TokenType>)
        ensures
            match r {
                Some(token) => self@.len() > 0 && token@ == peek(self@),
                None => self@.len() == 0 && peek(self@) is EOF,
            },
    {
        if self.tokens.len() > 0 {
            assert(self.tokens.deep_view()[0] == self.tokens@[0]@);
            Some(&self.tokens[0])
        } else {
            None
        }
    }

    /// The end-of-input marker is at the front, or nothing is.
    fn at_end(&self) -> (b: bool)
        ensures
            b == (peek(self@) is EOF),
    {
        match self.front() {
            None | Some(TokenType::EOF) => true,
            _ => false,
        }
    }

    /// Takes the token at the front.
    fn advance(&mut self) -> (r: Option<TokenType>)
        ensures
            final(self)@ == rest(old(self)@),
            match r {
                Some(token) => old(self)@.len() > 0 && token@ == old(self)@[0],
                None => old(self)@.len() == 0,
            },
    {
        let ghost before = self.tokens@;
        let token = self.tokens.pop_front();
        proof {
            if before.len() > 0 {
                assert(old(self).tokens.deep_view()[0] == before[0]@);
                assert(self.tokens.deep_view() =~= old(self).tokens.deep_view().skip(1));
            }
        }
        token
    }

    /// Parses the whole token sequence into a program.
    pub fn parse(&mut self) -> (r: Result<Ast, (Errors, String)>)
        ensures
            parsed_as(r, crate::grammar::parse(old(self)@)),
            final(self)@ == program(Seq::empty(), old(self)@).1,
            r matches Ok(node) ==> node is Program,
            r is Ok && well_formed(old(self)@) ==> final(self)@ == seq![Token::EOF],
    {
        proof {
            lemma_program(Seq::empty(), old(self)@);
            if well_formed(old(self)@) {
                lemma_parse_leaves_the_end(old(self)@);
            }
        }
        let mut program_body: Vec<Box<Ast>> = Vec::new();
        assert(boxed_trees(program_body@) =~= Seq::<Tree>::empty());
        while self.tokens.len() > 1
            invariant
                program(Seq::empty(), old(self)@) == program(boxed_trees(program_body@), self@),
            decreases self@.len(),
        {
            match self.parse_expression() {
                Ok(node) => {
                    proof {
                        assert(boxed_trees(program_body@.push(Box::new(node))) =~= boxed_trees(
                            program_body@,
                        ).push(node@));
                    }
                    program_body.push(Box::new(node));
                },
                Err(failure) => {
                    return Err(failure);
                },
            }
        }
        let node = Ast::Program(program_body);
        proof {
            lemma_view_of_children(node);
        }
        Ok(node)
    }

    /// Parses a full expression.
    fn parse_expression(&mut self) -> (r: Result<Ast, (Errors, String)>)
        ensures
            outcome(r, final(self)@, expression(old(self)@), old(self)@),
        decreases old(self)@.len(), 20int,
    {
        self.parse_assignment_expr()
    }

    /// Parses a declaration, or a logical expression and the assignments to
    /// it.
    fn parse_assignment_expr(&mut self) -> (r: Result<Ast, (Errors, String)>)
        ensures
            outcome(r, final(self)@, assignment(old(self)@), old(self)@),
        decreases old(self)@.len(), 19int,
    {
        if matches!(self.front(), Some(TokenType::Const)) {
            self.advance();
            let identifier: String = match self.parse_primitive_expr() {
                Ok(Ast::Identifier(name)) => name,
                Ok(_) => {
                    return syntax_error("Expected a Identifier after the const keyword");
                },
                Err(failure) => {
                    return Err(failure);
                },
            };
            if matches!(self.front(), Some(TokenType::Equals)) {
                self.advance();
                match self.parse_expression() {
                    Ok(right) => {
                        return Ok(
                            Ast::VariableDeclaration {
                                identifier,
                                right: Box::new(right),
                                constant: true,
                            },
                        );
                    },
                    Err(failure) => {
                        return Err(failure);
                    },
                }
            } else {
                return syntax_error("Constant declaration needs a value to be declared");
            }
        } else if matches!(self.front(), Some(TokenType::Local)) {
            self.advance();
            let identifier: Ast = match self.parse_primitive_expr() {
                Ok(Ast::Identifier(name)) => Ast::Identifier(name),
                Ok(_) => {
                    return syntax_error("Expected a Identifier after the local keyword");
                },
                Err(failure) => {
                    return Err(failure);
                },
            };
            let right: Ast = if matches!(self.front(), Some(TokenType::Equals)) {
                self.advance();
                match self.parse_expression() {
                    Ok(right) => right,
                    Err(failure) => {
                        return Err(failure);
                    },
                }
            } else {
                Ast::Identifier("empty".to_string())
            };
            return Ok(
                Ast::Assignment {
                    identifier: Box::new(identifier),
                    right: Box::new(right),
                    local: true,
                },
            );
        }
        let mut left = match self.parse_logical_expr() {
            Ok(left) => left,
            Err(failure) => {
                return Err(failure);
            },
        };
        while matches!(self.front(), Some(TokenType::Equals))
            invariant
                self@.len() < old(self)@.len(),
                assignment(old(self)@) == assignment_fold(left@, self@),
            decreases self@.len(),
        {
            self.advance();
            if self.at_end() {
                return syntax_error("missing value after the Comparison operator");
            }
            match self.parse_binary_shift() {
                Ok(right) => {
                    left = Ast::Assignment {
                        identifier: Box::new(left),
                        right: Box::new(right),
                        local: false,
                    };
                },
                Err(failure) => {
                    return Err(failure);
                },
            }
        }
        Ok(left)
    }

    /// Parses `not` and a comparison, or comparisons joined by `and`, `or`
    /// and `xor`.
    fn parse_logical_expr(&mut self) -> (r: Result<Ast, (Errors, String)>)
        ensures
            outcome(r, final(self)@, infix(Level::Logical, old(self)@), old(self)@),
        decreases old(self)@.len(), 15int,
    {
        if matches!(self.front(), Some(TokenType::Not)) {
            self.advance();
            if self.at_end() {
                return syntax_error("missing value after the not operator");
            }
            return match self.parse_comparison_expr() {
                Ok(right) => Ok(Ast::Not(Box::new(right))),
                Err(failure) => Err(failure),
            };
        }
        assert(operand(Level::Logical, self@) == infix(Level::Comparison, self@));
        let mut left = match self.parse_comparison_expr() {
            Ok(left) => left,
            Err(failure) => {
                return Err(failure);
            },
        };
        loop
            invariant
                self@.len() < old(self)@.len(),
                infix(Level::Logical, old(self)@) == infix_fold(Level::Logical, left@, self@),
            decreases self@.len(),
        {
            let op = match self.front() {
                Some(TokenType::LogicalExpr(operator)) => *operator,
                _ => {
                    return Ok(left);
                },
            };
            self.advance();
            if self.at_end() {
                return syntax_error("missing value after the Logical operator");
            }
            assert(operand(Level::Logical, self@) == infix(Level::Comparison, self@));
            match self.parse_comparison_expr() {
                Ok(right) => {
                    left = Ast::LogicalExpr {
                        operator: op,
                        left: Box::new(left),
                        right: Box::new(right),
                    };
                },
                Err(failure) => {
                    return Err(failure);
                },
            }
        }
    }

    /// Parses shifts joined by comparison operators.
    fn parse_comparison_expr(&mut self) -> (r: Result<Ast, (Errors, String)>)
        ensures
            outcome(r, final(self)@, infix(Level::Comparison, old(self)@), old(self)@),
        decreases old(self)@.len(), 13int,
    {
        assert(operand(Level::Comparison, self@) == infix(Level::Shift, self@));
        let mut left = match self.parse_binary_shift() {
            Ok(left) => left,
            Err(failure) => {
                return Err(failure);
            },
        };
        loop
            invariant
                self@.len() < old(self)@.len(),
                infix(Level::Comparison, old(self)@) == infix_fold(
                    Level::Comparison,
                    left@,
                    self@,
                ),
            decreases self@.len(),
        {
            let op = match self.front() {
                Some(TokenType::ComparisonExpr(operator)) => *operator,
                _ => {
                    return Ok(left);
                },
            };
            self.advance();
            if self.at_end() {
                return syntax_error("missing value after the Comparison operator");
            }
            assert(operand(Level::Comparison, self@) == infix(Level::Shift, self@));
            match self.parse_binary_shift() {
                Ok(right) => {
                    left = Ast::Comparison {
                        operator: op,
                        left: Box::new(left),
                        right: Box::new(right),
                    };
                },
                Err(failure) => {
                    return Err(failure);
                },
            }
        }
    }

    /// Parses sums joined by shift operators.
    fn parse_binary_shift(&mut self) -> (r: Result<Ast, (Errors, String)>)
        ensures
            outcome(r, final(self)@, infix(Level::Shift, old(self)@), old(self)@),
        decreases old(self)@.len(), 11int,
    {
        assert(operand(Level::Shift, self@) == infix(Level::Additive, self@));
        let mut left = match self.parse_aditive_expr() {
            Ok(left) => left,
            Err(failure) => {
                return Err(failure);
            },
        };
        loop
            invariant
                self@.len() < old(self)@.len(),
                infix(Level::Shift, old(self)@) == infix_fold(Level::Shift, left@, self@),
            decreases self@.len(),
        {
            let dir = match self.front() {
                Some(TokenType::BitwiseShift(direction)) => *direction,
                _ => {
                    return Ok(left);
                },
            };
            self.advance();
            if self.at_end() {
                return syntax_error("missing value after the BitShift operator");
            }
            assert(operand(Level::Shift, self@) == infix(Level::Additive, self@));
            match self.parse_aditive_expr() {
                Ok(right) => {
                    left = Ast::BitwiseShift {
                        shift_direction: dir,
                        left: Box::new(left),
                        right: Box::new(right),
                    };
                },
                Err(failure) => {
                    return Err(failure);
                },
            }
        }
    }

    /// Parses products joined by `+` and `-`.
    fn parse_aditive_expr(&mut self) -> (r: Result<Ast, (Errors, String)>)
        ensures
            outcome(r, final(self)@, infix(Level::Additive, old(self)@), old(self)@),
        decreases old(self)@.len(), 9int,
    {
        assert(operand(Level::Additive, self@) == infix(Level::Multiplicative, self@));
        let mut left = match self.parse_multiplicative_expr() {
            Ok(left) => left,
            Err(failure) => {
                return Err(failure);
            },
        };
        loop
            invariant
                self@.len() < old(self)@.len(),
                infix(Level::Additive, old(self)@) == infix_fold(Level::Additive, left@, self@),
            decreases self@.len(),
        {
            let op = match self.front() {
                Some(TokenType::BinaryOperator(BinaryOperator::Add)) => BinaryOperator::Add,
                Some(TokenType::BinaryOperator(BinaryOperator::Substract)) => {
                    BinaryOperator::Substract
                },
                _ => {
                    return Ok(left);
                },
            };
            self.advance();
            if self.at_end() {
                return syntax_error("missing value after the Binary operator");
            }
            assert(operand(Level::Additive, self@) == infix(Level::Multiplicative, self@));
            match self.parse_multiplicative_expr() {
                Ok(right) => {
                    left = Ast::BinaryOperator {
                        operator: op,
                        left: Box::new(left),
                        right: Box::new(right),
                    };
                },
                Err(failure) => {
                    return Err(failure);
                },
            }
        }
    }

    /// Parses calls and accesses joined by `*`, `/` and `%`.
    fn parse_multiplicative_expr(&mut self) -> (r: Result<Ast, (Errors, String)>)
        ensures
            outcome(r, final(self)@, infix(Level::Multiplicative, old(self)@), old(self)@),
        decreases old(self)@.len(), 7int,
    {
        assert(operand(Level::Multiplicative, self@) == call_member(self@));
        let mut left = match self.parse_call_member_expr() {
            Ok(left) => left,
            Err(failure) => {
                return Err(failure);
            },
        };
        loop
            invariant
                self@.len() < old(self)@.len(),
                infix(Level::Multiplicative, old(self)@) == infix_fold(
                    Level::Multiplicative,
                    left@,
                    self@,
                ),
            decreases self@.len(),
        {
            let op = match self.front() {
                Some(TokenType::BinaryOperator(BinaryOperator::Multiply)) => {
                    BinaryOperator::Multiply
                },
                Some(TokenType::BinaryOperator(BinaryOperator::Divide)) => BinaryOperator::Divide,
                Some(TokenType::BinaryOperator(BinaryOperator::Modulo)) => BinaryOperator::Modulo,
                _ => {
                    return Ok(left);
                },
            };
            self.advance();
            if self.at_end() {
                return syntax_error("missing value after the Binary operator");
            }
            assert(operand(Level::Multiplicative, self@) == call_member(self@));
            match self.parse_call_member_expr() {
                Ok(right) => {
                    left = Ast::BinaryOperator {
                        operator: op,
                        left: Box::new(left),
                        right: Box::new(right),
                    };
                },
                Err(failure) => {
                    return Err(failure);
                },
            }
        }
    }

    /// Parses a primary expression and the member accesses, subscripts and
    /// calls that follow it.
    fn parse_call_member_expr(&mut self) -> (r: Result<Ast, (Errors, String)>)
        ensures
            outcome(r, final(self)@, call_member(old(self)@), old(self)@),
        decreases old(self)@.len(), 2int,
    {
        let mut left = match self.parse_primitive_expr() {
            Ok(left) => left,
            Err(failure) => {
                return Err(failure);
            },
        };
        loop
            invariant
                self@.len() < old(self)@.len(),
                call_member(old(self)@) == postfix(left@, self@),
            decreases self@.len(),
        {
            let extended = if matches!(self.front(), Some(TokenType::Dot)) {
                self.parse_member(left)
            } else if matches!(self.front(), Some(TokenType::OpenBracket)) {
                self.parse_subscript(left)
            } else if matches!(self.front(), Some(TokenType::OpenParen)) {
                self.parse_call(left)
            } else {
                return Ok(left);
            };
            left = match extended {
                Ok(extended) => extended,
                Err(failure) => {
                    return Err(failure);
                },
            };
        }
    }

    /// Parses `.<identifier>` after `left`.
    fn parse_member(&mut self, left: Ast) -> (r: Result<Ast, (Errors, String)>)
        requires
            peek(old(self)@) is Dot,
        ensures
            extends(r, final(self)@, postfix(left@, old(self)@), old(self)@),
        decreases old(self)@.len(), 0int,
    {
        self.advance();
        let right = match self.parse_primitive_expr() {
            Ok(right) => right,
            Err(failure) => {
                return Err(failure);
            },
        };
        if !matches!(right, Ast::Identifier(..)) {
            return syntax_error("Expected a identifier after the dot expression");
        }
        Ok(Ast::MemberExpression { left: Box::new(left), right: Box::new(right) })
    }

    /// Parses `[<expression>]` after `left`.
    fn parse_subscript(&mut self, left: Ast) -> (r: Result<Ast, (Errors, String)>)
        requires
            peek(old(self)@) is OpenBracket,
        ensures
            extends(r, final(self)@, postfix(left@, old(self)@), old(self)@),
        decreases old(self)@.len(), 0int,
    {
        self.advance();
        if matches!(self.front(), Some(TokenType::ClosedBracket)) {
            return syntax_error("Expected an expression inside of the square brackets");
        }
        let right = match self.parse_expression() {
            Ok(right) => right,
            Err(failure) => {
                return Err(failure);
            },
        };
        if !matches!(self.front(), Some(TokenType::ClosedBracket)) {
            return syntax_error("Expected a closing bracket after the membership expression");
        }
        self.advance();
        Ok(Ast::MemberExpression { left: Box::new(left), right: Box::new(right) })
    }

    /// Parses `(<arguments>)` after `left`.
    fn parse_call(&mut self, left: Ast) -> (r: Result<Ast, (Errors, String)>)
        requires
            peek(old(self)@) is OpenParen,
        ensures
            extends(r, final(self)@, postfix(left@, old(self)@), old(self)@),
        decreases old(self)@.len(), 0int,
    {
        self.advance();
        if matches!(self.front(), Some(TokenType::ClosedParen)) {
            self.advance();
            let node = Ast::CallExpression { left: Box::new(left), arguments: Vec::new() };
            proof {
                lemma_view_of_children(node);
                assert(trees(Seq::<Ast>::empty()) =~= Seq::<Tree>::empty());
            }
            return Ok(node);
        }
        let first_arg = match self.parse_expression() {
            Ok(argument) => argument,
            Err(failure) => {
                return Err(failure);
            },
        };
        let mut arg_vec: Vec<Ast> = Vec::new();
        arg_vec.push(first_arg);
        assert(trees(arg_vec@) =~= seq![first_arg@]);
        while matches!(self.front(), Some(TokenType::Comma))
            invariant
                self@.len() < old(self)@.len(),
                postfix(left@, old(self)@) == arguments(left@, trees(arg_vec@), self@),
            decreases self@.len(),
        {
            self.advance();
            match self.parse_expression() {
                Ok(argument) => {
                    proof {
                        assert(trees(arg_vec@.push(argument)) =~= trees(arg_vec@).push(argument@));
                    }
                    arg_vec.push(argument);
                },
                Err(failure) => {
                    return Err(failure);
                },
            }
        }
        if !matches!(self.front(), Some(TokenType::ClosedParen)) {
            return syntax_error("Expected a closing paren after the call expression");
        }
        self.advance();
        let node = Ast::CallExpression { left: Box::new(left), arguments: arg_vec };
        proof {
            lemma_view_of_children(node);
        }
        Ok(node)
    }

    /// Parses a literal, an identifier or an `if` expression.
    fn parse_primitive_expr(&mut self) -> (r: Result<Ast, (Errors, String)>)
        ensures
            outcome(r, final(self)@, primitive(old(self)@), old(self)@),
        decreases old(self)@.len(), 1int,
    {
        match self.advance() {
            Some(TokenType::String(text)) => Ok(Ast::String(text)),
            Some(TokenType::Int(value)) => Ok(Ast::Int(value)),
            Some(TokenType::Float(text)) => Ok(Ast::Float(text)),
            Some(TokenType::Identifier(name)) => Ok(Ast::Identifier(name)),
            Some(TokenType::If) => {
                let check = match self.parse_expression() {
                    Ok(check) => check,
                    Err(failure) => {
                        return Err(failure);
                    },
                };
                if !matches!(self.front(), Some(TokenType::OpenBrace)) {
                    return syntax_error("Expected a body after the if statement");
                }
                self.advance();
                let mut body_vec: Vec<Ast> = Vec::new();
                assert(trees(body_vec@) =~= Seq::<Tree>::empty());
                while !matches!(self.front(), Some(TokenType::ClosedBrace)) && !self.at_end()
                    invariant
                        self@.len() < old(self)@.len(),
                        primitive(old(self)@) == block(check@, trees(body_vec@), self@),
                    decreases self@.len(),
                {
                    match self.parse_expression() {
                        Ok(statement) => {
                            proof {
                                assert(trees(body_vec@.push(statement)) =~= trees(body_vec@).push(
                                    statement@,
                                ));
                            }
                            body_vec.push(statement);
                        },
                        Err(failure) => {
                            return Err(failure);
                        },
                    }
                }
                if !matches!(self.front(), Some(TokenType::ClosedBrace)) {
                    return syntax_error("Expected a closing brace for the if block");
                }
                self.advance();
                let node = Ast::IfExpression { check: Box::new(check), body: body_vec };
                proof {
                    lemma_view_of_children(node);
                }
                Ok(node)
            },
            Some(token) => {
                let mut message = "Unknown Token ".to_string();
                message.append(name_of(&token).as_str());
                Err((Errors::SyntaxError, message))
            },
            None => syntax_error("Unexpected end of tokens"),
        }
    }
}

} // verus!
