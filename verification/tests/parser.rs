use script_parser::ast_types::Ast;
use script_parser::errors::Errors;
use script_parser::lexer_types::{BinaryOperator, BitwiseShift, ComparisonExpr, LogicalExpr, TokenType};
use script_parser::parser::Parser;

fn parse(source: &str) -> Result<Ast, (Errors, String)> {
    Parser::new(source).and_then(|mut parser| parser.parse())
}

fn statement(source: &str) -> Ast {
    match parse(source) {
        Ok(Ast::Program(mut body)) => {
            assert_eq!(body.len(), 1);
            *body.remove(0)
        }
        other => panic!("not a program: {:?}", other),
    }
}

fn syntax_error(source: &str) -> String {
    match parse(source) {
        Err((Errors::SyntaxError, message)) => message,
        other => panic!("not a syntax error: {:?}", other),
    }
}

fn num(value: i32) -> Box<Ast> {
    Box::new(Ast::Int(value))
}

fn name(text: &str) -> Box<Ast> {
    Box::new(Ast::Identifier(text.to_string()))
}

fn binary(operator: BinaryOperator, left: Box<Ast>, right: Box<Ast>) -> Box<Ast> {
    Box::new(Ast::BinaryOperator { operator, left, right })
}

#[test]
fn multiplication_binds_tighter_than_addition() {
    assert_eq!(
        statement("1 + 2 * 3"),
        *binary(
            BinaryOperator::Add,
            num(1),
            binary(BinaryOperator::Multiply, num(2), num(3)),
        )
    );
}

#[test]
fn addition_groups_to_the_left() {
    assert_eq!(
        statement("1 - 2 + 3"),
        *binary(
            BinaryOperator::Add,
            binary(BinaryOperator::Substract, num(1), num(2)),
            num(3),
        )
    );
}

#[test]
fn division_and_modulo_group_to_the_left() {
    assert_eq!(
        statement("8 / 4 % 3"),
        *binary(
            BinaryOperator::Modulo,
            binary(BinaryOperator::Divide, num(8), num(4)),
            num(3),
        )
    );
}

#[test]
fn constant_declaration() {
    assert_eq!(
        statement("const x = 5"),
        Ast::VariableDeclaration { identifier: "x".to_string(), right: num(5), constant: true }
    );
}

#[test]
fn constant_declaration_without_value() {
    assert_eq!(syntax_error("const x"), "Constant declaration needs a value to be declared");
}

#[test]
fn constant_declaration_without_identifier() {
    assert_eq!(syntax_error("const 5 = 5"), "Expected a Identifier after the const keyword");
    assert_eq!(syntax_error("const"), "Unknown Token EOF");
}

#[test]
fn local_declaration_without_initializer() {
    assert_eq!(
        statement("local y"),
        Ast::Assignment { identifier: name("y"), right: name("empty"), local: true }
    );
}

#[test]
fn local_declaration_with_initializer() {
    assert_eq!(
        statement("local y = 1 + 2"),
        Ast::Assignment {
            identifier: name("y"),
            right: binary(BinaryOperator::Add, num(1), num(2)),
            local: true,
        }
    );
}

#[test]
fn local_declaration_without_identifier() {
    assert_eq!(syntax_error("local 1"), "Expected a Identifier after the local keyword");
}

#[test]
fn call_on_member() {
    assert_eq!(
        statement("a.b(1, 2)"),
        Ast::CallExpression {
            left: Box::new(Ast::MemberExpression { left: name("a"), right: name("b") }),
            arguments: vec![Ast::Int(1), Ast::Int(2)],
        }
    );
}

#[test]
fn call_without_arguments() {
    assert_eq!(statement("f()"), Ast::CallExpression { left: name("f"), arguments: vec![] });
}

#[test]
fn chained_calls_and_subscripts() {
    assert_eq!(
        statement("f(1)[2].g"),
        Ast::MemberExpression {
            left: Box::new(Ast::MemberExpression {
                left: Box::new(Ast::CallExpression { left: name("f"), arguments: vec![Ast::Int(1)] }),
                right: num(2),
            }),
            right: name("g"),
        }
    );
}

#[test]
fn call_errors() {
    assert_eq!(syntax_error("f(1"), "Expected a closing paren after the call expression");
    assert_eq!(syntax_error("f(1,)"), "Unknown Token ClosedParen");
    assert_eq!(syntax_error("f(1 2)"), "Expected a closing paren after the call expression");
}

#[test]
fn subscript_errors() {
    assert_eq!(syntax_error("a[]"), "Expected an expression inside of the square brackets");
    assert_eq!(syntax_error("a[1"), "Expected a closing bracket after the membership expression");
}

#[test]
fn member_errors() {
    assert_eq!(syntax_error("a.1"), "Expected a identifier after the dot expression");
    assert_eq!(syntax_error("a."), "Unknown Token EOF");
}

#[test]
fn assignment_reads_its_value_at_the_shift_level() {
    assert_eq!(
        statement("x = 1 << 2"),
        Ast::Assignment {
            identifier: name("x"),
            right: Box::new(Ast::BitwiseShift {
                shift_direction: BitwiseShift::Left,
                left: num(1),
                right: num(2),
            }),
            local: false,
        }
    );
}

#[test]
fn assignments_group_to_the_left() {
    assert_eq!(
        statement("x = y = 1"),
        Ast::Assignment {
            identifier: Box::new(Ast::Assignment { identifier: name("x"), right: name("y"), local: false }),
            right: num(1),
            local: false,
        }
    );
}

#[test]
fn assignment_to_member() {
    assert_eq!(
        statement("a.b = 1"),
        Ast::Assignment {
            identifier: Box::new(Ast::MemberExpression { left: name("a"), right: name("b") }),
            right: num(1),
            local: false,
        }
    );
}

#[test]
fn comparison_is_left_outside_an_assigned_value() {
    // The value of an assignment ends before a comparison, which is then
    // not part of the statement.
    match parse("x = 1 == 2") {
        Err((Errors::SyntaxError, message)) => {
            assert_eq!(message, "Unknown Token ComparisonExpr(Equals)")
        }
        other => panic!("unexpected: {:?}", other),
    }
}

#[test]
fn logical_comparison_and_shift_levels() {
    assert_eq!(
        statement("a and b == c >> 1"),
        Ast::LogicalExpr {
            operator: LogicalExpr::And,
            left: name("a"),
            right: Box::new(Ast::Comparison {
                operator: ComparisonExpr::Equals,
                left: name("b"),
                right: Box::new(Ast::BitwiseShift {
                    shift_direction: BitwiseShift::Right,
                    left: name("c"),
                    right: num(1),
                }),
            }),
        }
    );
}

#[test]
fn not_takes_one_comparison() {
    assert_eq!(
        statement("not a < b"),
        Ast::Not(Box::new(Ast::Comparison {
            operator: ComparisonExpr::Less,
            left: name("a"),
            right: name("b"),
        }))
    );
    assert_eq!(statement("!a"), Ast::Not(name("a")));
}

#[test]
fn missing_operands() {
    assert_eq!(syntax_error("1 +"), "missing value after the Binary operator");
    assert_eq!(syntax_error("1 *"), "missing value after the Binary operator");
    assert_eq!(syntax_error("1 <<"), "missing value after the BitShift operator");
    assert_eq!(syntax_error("1 <"), "missing value after the Comparison operator");
    assert_eq!(syntax_error("a and"), "missing value after the Logical operator");
    assert_eq!(syntax_error("not"), "missing value after the not operator");
    assert_eq!(syntax_error("x ="), "missing value after the Comparison operator");
}

#[test]
fn if_expression() {
    assert_eq!(
        statement("if a { b c = 1 }"),
        Ast::IfExpression {
            check: name("a"),
            body: vec![
                Ast::Identifier("b".to_string()),
                Ast::Assignment { identifier: name("c"), right: num(1), local: false },
            ],
        }
    );
    assert_eq!(statement("if 1 {}"), Ast::IfExpression { check: num(1), body: vec![] });
}

#[test]
fn if_expression_errors() {
    assert_eq!(syntax_error("if a b"), "Expected a body after the if statement");
    assert_eq!(syntax_error("if a { b"), "Expected a closing brace for the if block");
    assert_eq!(syntax_error("if"), "Unknown Token EOF");
}

#[test]
fn unknown_tokens_are_named() {
    assert_eq!(syntax_error(")"), "Unknown Token ClosedParen");
    assert_eq!(syntax_error("+"), "Unknown Token BinaryOperator(Add)");
    assert_eq!(syntax_error("1 + *"), "Unknown Token BinaryOperator(Multiply)");
    assert_eq!(syntax_error("=="), "Unknown Token ComparisonExpr(Equals)");
    assert_eq!(syntax_error("<<"), "Unknown Token BitwiseShift(Left)");
    assert_eq!(syntax_error("and"), "Unknown Token LogicalExpr(And)");
    assert_eq!(syntax_error("while"), "Unknown Token While");
    assert_eq!(syntax_error("else_if"), "Unknown Token ElseIf");
    assert_eq!(syntax_error("@"), "Unknown Token Monkey");
}

#[test]
fn literals() {
    assert_eq!(statement("\"hi\""), Ast::String("hi".to_string()));
    assert_eq!(statement("1.5"), Ast::Float("1.5".to_string()));
    assert_eq!(statement("0x1f"), Ast::Int(31));
}

#[test]
fn program_of_several_statements() {
    match parse("1 2 x") {
        Ok(Ast::Program(body)) => {
            assert_eq!(body.len(), 3);
            assert_eq!(*body[0], Ast::Int(1));
            assert_eq!(*body[1], Ast::Int(2));
            assert_eq!(*body[2], Ast::Identifier("x".to_string()));
        }
        other => panic!("unexpected: {:?}", other),
    }
}

#[test]
fn empty_program() {
    assert_eq!(parse(""), Ok(Ast::Program(vec![])));
    assert_eq!(parse("   "), Ok(Ast::Program(vec![])));
}

#[test]
fn tokenizer_failure_surfaces_from_new() {
    match Parser::new("0b") {
        Err((Errors::SyntaxError, message)) => assert_eq!(message, "Missing value after 0b"),
        _ => panic!("expected a failure"),
    }
}

#[test]
fn dump_tokens_hands_the_tokens_over() {
    let tokens = Parser::new("a = 1").ok().unwrap().dump_tokens();
    assert_eq!(
        tokens.into_iter().collect::<Vec<_>>(),
        vec![
            TokenType::Identifier("a".to_string()),
            TokenType::Equals,
            TokenType::Int(1),
            TokenType::EOF,
        ]
    );
}

#[test]
fn parse_leaves_the_end_marker() {
    let mut parser = Parser::new("1 + 2").ok().unwrap();
    assert!(parser.parse().is_ok());
    assert_eq!(parser.dump_tokens().into_iter().collect::<Vec<_>>(), vec![TokenType::EOF]);
}

#[test]
fn second_parse_gives_an_empty_program() {
    let mut parser = Parser::new("1 + 2").ok().unwrap();
    assert!(parser.parse().is_ok());
    assert_eq!(parser.parse(), Ok(Ast::Program(vec![])));
}

#[test]
fn nested_calls_and_subscripts_as_arguments() {
    assert_eq!(
        statement("f(g(1), h[2])"),
        Ast::CallExpression {
            left: name("f"),
            arguments: vec![
                Ast::CallExpression { left: name("g"), arguments: vec![Ast::Int(1)] },
                Ast::MemberExpression { left: name("h"), right: num(2) },
            ],
        }
    );
}

#[test]
fn nested_if_expressions() {
    assert_eq!(
        statement("if a { if b { c } d }"),
        Ast::IfExpression {
            check: name("a"),
            body: vec![
                Ast::IfExpression {
                    check: name("b"),
                    body: vec![Ast::Identifier("c".to_string())],
                },
                Ast::Identifier("d".to_string()),
            ],
        }
    );
}

#[test]
fn if_expression_as_a_value() {
    assert_eq!(
        statement("local x = if a { 1 }"),
        Ast::Assignment {
            identifier: name("x"),
            right: Box::new(Ast::IfExpression { check: name("a"), body: vec![Ast::Int(1)] }),
            local: true,
        }
    );
}

#[test]
fn if_expression_followed_by_a_call() {
    assert_eq!(
        statement("if a { b }(1)"),
        Ast::CallExpression {
            left: Box::new(Ast::IfExpression {
                check: name("a"),
                body: vec![Ast::Identifier("b".to_string())],
            }),
            arguments: vec![Ast::Int(1)],
        }
    );
}

#[test]
fn member_chains_group_to_the_left() {
    assert_eq!(
        statement("a.b.c"),
        Ast::MemberExpression {
            left: Box::new(Ast::MemberExpression { left: name("a"), right: name("b") }),
            right: name("c"),
        }
    );
    assert_eq!(
        statement("a[1][2]"),
        Ast::MemberExpression {
            left: Box::new(Ast::MemberExpression { left: name("a"), right: num(1) }),
            right: num(2),
        }
    );
}

#[test]
fn white_space_does_not_matter_between_tokens() {
    assert_eq!(statement("a . b ( 1 , 2 )"), statement("a.b(1,2)"));
    assert_eq!(statement("1+2*3"), statement("1 + 2 * 3"));
}

#[test]
fn a_constant_may_hold_an_assignment() {
    assert_eq!(
        statement("const x = y = 2"),
        Ast::VariableDeclaration {
            identifier: "x".to_string(),
            right: Box::new(Ast::Assignment { identifier: name("y"), right: num(2), local: false }),
            constant: true,
        }
    );
}

#[test]
fn not_is_read_at_the_logical_level_alone() {
    assert_eq!(syntax_error("x = not a"), "Unknown Token Not");
    assert_eq!(syntax_error("not not a"), "Unknown Token Not");
    assert_eq!(syntax_error("a and not b"), "Unknown Token Not");
}

#[test]
fn no_expression_begins_with_a_parenthesis_or_a_sign() {
    assert_eq!(syntax_error("(1)"), "Unknown Token OpenParen");
    assert_eq!(syntax_error("-1"), "Unknown Token BinaryOperator(Substract)");
    assert_eq!(syntax_error("{"), "Unknown Token OpenBrace");
    assert_eq!(syntax_error("]"), "Unknown Token ClosedBracket");
    assert_eq!(syntax_error(","), "Unknown Token Comma");
    assert_eq!(syntax_error("."), "Unknown Token Dot");
    assert_eq!(syntax_error(":"), "Unknown Token Colon");
    assert_eq!(syntax_error(";"), "Unknown Token SemiColon");
    assert_eq!(syntax_error("callable"), "Unknown Token Callable");
    assert_eq!(syntax_error("else"), "Unknown Token Else");
    assert_eq!(syntax_error(">>"), "Unknown Token BitwiseShift(Right)");
    assert_eq!(syntax_error("%"), "Unknown Token BinaryOperator(Modulo)");
    assert_eq!(syntax_error("/"), "Unknown Token BinaryOperator(Divide)");
    assert_eq!(syntax_error("or"), "Unknown Token LogicalExpr(Or)");
    assert_eq!(syntax_error("xor"), "Unknown Token LogicalExpr(Xor)");
    assert_eq!(syntax_error("!="), "Unknown Token ComparisonExpr(NotEquals)");
    assert_eq!(syntax_error(">"), "Unknown Token ComparisonExpr(Greater)");
    assert_eq!(syntax_error(">="), "Unknown Token ComparisonExpr(GreaterEqual)");
    assert_eq!(syntax_error("<"), "Unknown Token ComparisonExpr(Less)");
    assert_eq!(syntax_error("<="), "Unknown Token ComparisonExpr(LessEqual)");
    assert_eq!(syntax_error("="), "Unknown Token Equals");
    assert_eq!(syntax_error("1 + )"), "Unknown Token ClosedParen");
    assert_eq!(syntax_error("1 + }"), "Unknown Token ClosedBrace");
    assert_eq!(syntax_error("1 + ["), "Unknown Token OpenBracket");
    assert_eq!(syntax_error("1 + const"), "Unknown Token Const");
    assert_eq!(syntax_error("1 + local"), "Unknown Token Local");
}

#[test]
fn comparisons_shifts_and_logic_group_to_the_left() {
    assert_eq!(
        statement("a == b != c"),
        Ast::Comparison {
            operator: ComparisonExpr::NotEquals,
            left: Box::new(Ast::Comparison {
                operator: ComparisonExpr::Equals,
                left: name("a"),
                right: name("b"),
            }),
            right: name("c"),
        }
    );
    assert_eq!(
        statement("1 << 2 >> 3"),
        Ast::BitwiseShift {
            shift_direction: BitwiseShift::Right,
            left: Box::new(Ast::BitwiseShift {
                shift_direction: BitwiseShift::Left,
                left: num(1),
                right: num(2),
            }),
            right: num(3),
        }
    );
    assert_eq!(
        statement("a or b xor c"),
        Ast::LogicalExpr {
            operator: LogicalExpr::Xor,
            left: Box::new(Ast::LogicalExpr {
                operator: LogicalExpr::Or,
                left: name("a"),
                right: name("b"),
            }),
            right: name("c"),
        }
    );
}

#[test]
fn addition_binds_tighter_than_shift_and_comparison() {
    assert_eq!(
        statement("1 + 2 << 3 < 4"),
        Ast::Comparison {
            operator: ComparisonExpr::Less,
            left: Box::new(Ast::BitwiseShift {
                shift_direction: BitwiseShift::Left,
                left: binary(BinaryOperator::Add, num(1), num(2)),
                right: num(3),
            }),
            right: num(4),
        }
    );
}

#[test]
fn the_first_failure_ends_the_parse() {
    assert_eq!(syntax_error("1 + 2 ) 3 +"), "Unknown Token ClosedParen");
    assert_eq!(syntax_error("1 + 3 +"), "missing value after the Binary operator");
}

#[test]
fn a_failed_parse_leaves_no_tree() {
    let mut parser = Parser::new("1 2 +").ok().unwrap();
    match parser.parse() {
        Err((Errors::SyntaxError, message)) => {
            assert_eq!(message, "missing value after the Binary operator")
        }
        other => panic!("unexpected: {:?}", other),
    }
}
