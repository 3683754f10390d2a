use sorrel::ast::operator::{BinaryOp, UnaryOp};
use sorrel::ast::types::{RegionId, Type};
use sorrel::ast::{Block, Expr, Literal, Stmt, ToplevelStmt, TypedIdentifier, AST};
use sorrel::lexer::TokenKind;
use sorrel::parser::Parser;

fn ident(name: &str) -> Expr {
    Expr::Identifier(TypedIdentifier { name: name.to_string(), type_: None })
}

fn int_lit(v: i64) -> Expr {
    Expr::Literal(Literal::Int(v))
}

fn bin(left: Expr, op: BinaryOp, right: Expr) -> Expr {
    Expr::BinaryOp { left: Box::new(left), op, right: Box::new(right) }
}

fn typed(name: &str, ty: Type) -> TypedIdentifier {
    TypedIdentifier { name: name.to_string(), type_: Some(ty) }
}

fn tail_block(statements: Vec<Stmt>, tail: Option<Expr>) -> Block {
    Block { region_id: RegionId(0), statements, tail: tail.map(Box::new) }
}

fn expression(source: &str) -> Result<Expr, String> {
    Parser::new(source).parse_expression()
}

#[test]
fn parses_pointer_type() {
    let mut parser = Parser::new("*i32 'a *u8 'a *bool 'b");

    assert_eq!(parser.parse_type(), Ok(Type::Pointer(Box::new(Type::I32), RegionId(0))));
    assert_eq!(parser.parse_type(), Ok(Type::Pointer(Box::new(Type::U8), RegionId(0))));
    assert_eq!(parser.parse_type(), Ok(Type::Pointer(Box::new(Type::Bool), RegionId(1))));
}

#[test]
fn parses_nested_pointer_types() {
    let mut parser = Parser::new("**i32 'inner 'outer");

    assert_eq!(
        parser.parse_type(),
        Ok(Type::Pointer(Box::new(Type::Pointer(Box::new(Type::I32), RegionId(0))), RegionId(1),))
    );
}

#[test]
fn parses_expression() {
    let mut parser = Parser::new("1 + 2 * 3 - 4 / 5");
    let expr = parser.parse_expression().unwrap();
    println!("{:?}", expr);
}

#[test]
fn parses_borrow() {
    let mut parser = Parser::new("&x 'b");
    let expr = parser.parse_expression().unwrap();
    println!("{:?}", expr);
}

#[test]
fn parses_assignment() {
    let mut parser = Parser::new("x = 42");
    let expr = parser.parse_expression().unwrap();
    println!("{:?}", expr);
}

#[test]
fn parses_post_assignment() {
    let mut parser = Parser::new("x += 1");
    let expr = parser.parse_expression().unwrap();
    println!("{:?}", expr);
}

#[test]
fn parses_if_expression() {
    let mut parser = Parser::new("if x > 0 { x } else { 0 }");
    let expr = parser.parse_expression().unwrap();
    println!("{:?}", expr);
}

#[test]
fn tighter_operators_group_first() {
    assert_eq!(
        expression("1 + 2 * 3"),
        Ok(bin(int_lit(1), BinaryOp::Plus, bin(int_lit(2), BinaryOp::Star, int_lit(3))))
    );
    assert_eq!(
        expression("1 + 2 * 3 - 4 / 5"),
        Ok(bin(
            bin(int_lit(1), BinaryOp::Plus, bin(int_lit(2), BinaryOp::Star, int_lit(3))),
            BinaryOp::Minus,
            bin(int_lit(4), BinaryOp::Slash, int_lit(5)),
        ))
    );
    assert_eq!(
        expression("a < b && c || d"),
        Ok(bin(
            bin(bin(ident("a"), BinaryOp::LessThan, ident("b")), BinaryOp::And, ident("c")),
            BinaryOp::Or,
            ident("d"),
        ))
    );
}

#[test]
fn equal_levels_group_to_the_left() {
    assert_eq!(
        expression("a - b - c"),
        Ok(bin(bin(ident("a"), BinaryOp::Minus, ident("b")), BinaryOp::Minus, ident("c")))
    );
    assert_eq!(
        expression("a <= b >= c"),
        Ok(bin(bin(ident("a"), BinaryOp::LessEqual, ident("b")), BinaryOp::GreaterEqual, ident("c")))
    );
}

#[test]
fn assignment_groups_to_the_right() {
    assert_eq!(
        expression("a = b = c"),
        Ok(Expr::Assign {
            target: Box::new(ident("a")),
            value: Box::new(Expr::Assign { target: Box::new(ident("b")), value: Box::new(ident("c")) }),
        })
    );
    assert_eq!(
        expression("x = 42"),
        Ok(Expr::Assign { target: Box::new(ident("x")), value: Box::new(int_lit(42)) })
    );
}

#[test]
fn long_chains_follow_the_precedence_table() {
    let assign = |t: Expr, v: Expr| Expr::Assign { target: Box::new(t), value: Box::new(v) };
    assert_eq!(
        expression("a = b + c * d - e = f"),
        Ok(assign(
            ident("a"),
            assign(
                bin(
                    bin(ident("b"), BinaryOp::Plus, bin(ident("c"), BinaryOp::Star, ident("d"))),
                    BinaryOp::Minus,
                    ident("e"),
                ),
                ident("f"),
            ),
        ))
    );
    assert_eq!(
        expression("a || b && c == d < e + f * g"),
        Ok(bin(
            ident("a"),
            BinaryOp::Or,
            bin(
                ident("b"),
                BinaryOp::And,
                bin(
                    ident("c"),
                    BinaryOp::DoubleEqual,
                    bin(
                        ident("d"),
                        BinaryOp::LessThan,
                        bin(ident("e"), BinaryOp::Plus, bin(ident("f"), BinaryOp::Star, ident("g"))),
                    ),
                ),
            ),
        ))
    );
    assert_eq!(
        expression("1 * 2 * 3 + 4 + 5"),
        Ok(bin(
            bin(bin(bin(int_lit(1), BinaryOp::Star, int_lit(2)), BinaryOp::Star, int_lit(3)), BinaryOp::Plus, int_lit(4)),
            BinaryOp::Plus,
            int_lit(5),
        ))
    );
}

#[test]
fn chains_of_compound_operands_follow_the_table() {
    assert_eq!(
        expression("(a + b) * -c - { x } = &y 'r"),
        Ok(Expr::Assign {
            target: Box::new(bin(
                bin(bin(ident("a"), BinaryOp::Plus, ident("b")), BinaryOp::Star, Expr::UnaryOp {
                    op: UnaryOp::Negate,
                    expr: Box::new(ident("c")),
                }),
                BinaryOp::Minus,
                Expr::Block(tail_block(vec![], Some(ident("x")))),
            )),
            value: Box::new(Expr::Borrow { expr: Box::new(ident("y")), region_id: RegionId(0) }),
        })
    );
}

#[test]
fn calls_are_operands_of_a_chain() {
    assert_eq!(
        expression("f(x) + -g(y) * 2"),
        Ok(bin(
            call(ident("f"), vec![ident("x")]),
            BinaryOp::Plus,
            bin(
                Expr::UnaryOp { op: UnaryOp::Negate, expr: Box::new(call(ident("g"), vec![ident("y")])) },
                BinaryOp::Star,
                int_lit(2),
            ),
        ))
    );
}

#[test]
fn parentheses_override_precedence() {
    assert_eq!(
        expression("(1 + 2) * 3"),
        Ok(bin(bin(int_lit(1), BinaryOp::Plus, int_lit(2)), BinaryOp::Star, int_lit(3)))
    );
}

#[test]
fn unary_operators_bind_tightly() {
    assert_eq!(
        expression("-x * y"),
        Ok(bin(
            Expr::UnaryOp { op: UnaryOp::Negate, expr: Box::new(ident("x")) },
            BinaryOp::Star,
            ident("y"),
        ))
    );
    assert_eq!(
        expression("!*p"),
        Ok(Expr::UnaryOp {
            op: UnaryOp::Not,
            expr: Box::new(Expr::UnaryOp { op: UnaryOp::Deref, expr: Box::new(ident("p")) }),
        })
    );
}

#[test]
fn borrow_interns_its_region() {
    let mut parser = Parser::new("&x 'b &y 'c &z 'b");
    let region = |e: Result<Expr, String>| match e {
        Ok(Expr::Borrow { region_id, .. }) => region_id,
        other => panic!("not a borrow: {:?}", other),
    };
    assert_eq!(
        Parser::new("&x 'b").parse_expression(),
        Ok(Expr::Borrow { expr: Box::new(ident("x")), region_id: RegionId(0) })
    );
    assert_eq!(region(parser.parse_expression()), RegionId(0));
    assert_eq!(region(parser.parse_expression()), RegionId(1));
    assert_eq!(region(parser.parse_expression()), RegionId(0));
}

#[test]
fn same_region_name_same_id_across_types_and_borrows() {
    let mut parser = Parser::new("*u8 'a *u8 'b &v 'a");
    assert_eq!(parser.parse_type(), Ok(Type::Pointer(Box::new(Type::U8), RegionId(0))));
    assert_eq!(parser.parse_type(), Ok(Type::Pointer(Box::new(Type::U8), RegionId(1))));
    assert_eq!(
        parser.parse_expression(),
        Ok(Expr::Borrow { expr: Box::new(ident("v")), region_id: RegionId(0) })
    );
}

#[test]
fn if_expression_with_else() {
    assert_eq!(
        expression("if x > 0 { x } else { 0 }"),
        Ok(Expr::If {
            condition: Box::new(bin(ident("x"), BinaryOp::GreaterThan, int_lit(0))),
            then_branch: tail_block(vec![], Some(ident("x"))),
            else_branch: Some(Box::new(Expr::Block(tail_block(vec![], Some(int_lit(0)))))),
        })
    );
    assert_eq!(
        expression("if c { }"),
        Ok(Expr::If { condition: Box::new(ident("c")), then_branch: tail_block(vec![], None), else_branch: None })
    );
}

#[test]
fn compound_assignment_has_no_precedence() {
    let mut parser = Parser::new("x += 1");
    assert_eq!(parser.parse_expression(), Ok(ident("x")));
    assert!(parser.peek_is(TokenKind::PlusEquals));
}

fn call(callee: Expr, args: Vec<Expr>) -> Expr {
    Expr::Call { callee: Box::new(callee), args }
}

#[test]
fn calls_take_their_argument_lists() {
    assert_eq!(expression("f(1, 2)"), Ok(call(ident("f"), vec![int_lit(1), int_lit(2)])));
    assert_eq!(expression("f()"), Ok(call(ident("f"), vec![])));
    assert_eq!(expression("f(a,)"), Ok(call(ident("f"), vec![ident("a")])));
    assert_eq!(
        expression("g(x)(y)"),
        Ok(call(call(ident("g"), vec![ident("x")]), vec![ident("y")]))
    );
    assert_eq!(
        expression("f(a + b, c)"),
        Ok(call(ident("f"), vec![bin(ident("a"), BinaryOp::Plus, ident("b")), ident("c")]))
    );
    assert_eq!(
        expression("-f(x)"),
        Ok(Expr::UnaryOp { op: UnaryOp::Negate, expr: Box::new(call(ident("f"), vec![ident("x")])) })
    );
    assert_eq!(
        expression("f(x) * 2"),
        Ok(bin(call(ident("f"), vec![ident("x")]), BinaryOp::Star, int_lit(2)))
    );
}

#[test]
fn previous_was_names_the_last_consumed_token() {
    let mut parser = Parser::new("let x");
    assert!(!parser.previous_was(TokenKind::Let));
    parser.next();
    assert!(parser.previous_was(TokenKind::Let));
    parser.next();
    assert!(parser.previous_was(TokenKind::Ident));
    assert!(!parser.previous_was(TokenKind::Let));
}

#[test]
fn call_arguments_may_begin_with_a_parenthesis() {
    assert_eq!(
        expression("f((1) + 2)"),
        Ok(call(ident("f"), vec![bin(int_lit(1), BinaryOp::Plus, int_lit(2))]))
    );
    let mut parser = Parser::new("f((1) + 2)");
    assert!(parser.parse_expression().is_ok());
    assert!(parser.peek().is_none());
    assert_eq!(expression("f((a))"), Ok(call(ident("f"), vec![ident("a")])));
}

#[test]
fn else_takes_an_if_or_a_block() {
    assert_eq!(
        expression("if a { 1 } else if b { 2 } else { 3 }"),
        Ok(Expr::If {
            condition: Box::new(ident("a")),
            then_branch: tail_block(vec![], Some(int_lit(1))),
            else_branch: Some(Box::new(Expr::If {
                condition: Box::new(ident("b")),
                then_branch: tail_block(vec![], Some(int_lit(2))),
                else_branch: Some(Box::new(Expr::Block(tail_block(vec![], Some(int_lit(3)))))),
            })),
        })
    );
    assert_eq!(
        expression("if c { 1 } else 5"),
        Err("Expected token kind LBrace, but found IntLit at position 16".to_string())
    );
}

#[test]
fn call_errors() {
    assert_eq!(
        expression("f(1 2)"),
        Err("Expected delimiter Comma or end RParen but found IntLit at position 2".to_string())
    );
    assert_eq!(expression("f(1"), Err("Expected token kind RParen, but found end of input".to_string()));
    assert_eq!(expression("f(,)"), Err("Unexpected token Comma when parsing primary expression".to_string()));
}

#[test]
fn literals_of_each_kind() {
    assert_eq!(expression("42"), Ok(int_lit(42)));
    assert_eq!(expression("9223372036854775807"), Ok(int_lit(i64::MAX)));
    assert_eq!(expression("9223372036854775808"), Err("Invalid integer literal".to_string()));
    assert_eq!(expression("3.14"), Ok(Expr::Literal(Literal::Float("3.14".to_string()))));
    assert_eq!(expression("\"hi\""), Ok(Expr::Literal(Literal::String("\"hi\"".to_string()))));
    assert_eq!(expression("'c'"), Ok(Expr::Literal(Literal::Char('c'))));
    assert_eq!(expression("'\\n'"), Ok(Expr::Literal(Literal::Char('\\'))));
    assert_eq!(expression("true"), Ok(Expr::Literal(Literal::Bool(true))));
    assert_eq!(expression("false"), Ok(Expr::Literal(Literal::Bool(false))));
}

#[test]
fn expression_errors() {
    assert_eq!(expression(""), Err("Unexpected end of input".to_string()));
    assert_eq!(expression("1 +"), Err("Unexpected end of input".to_string()));
    assert_eq!(expression("+"), Err("Unexpected token Plus when parsing primary expression".to_string()));
    assert_eq!(expression("(1"), Err("Expected token kind RParen, but found end of input".to_string()));
    assert_eq!(expression("(1 2"), Err("Expected token kind RParen, but found IntLit at position 3".to_string()));
    assert_eq!(expression("&x b"), Err("Expected token kind Apostrophe, but found Ident at position 3".to_string()));
}

#[test]
fn types_of_each_form() {
    assert_eq!(Parser::new("usize").parse_type(), Ok(Type::USize));
    assert_eq!(
        Parser::new("[i32; 4]").parse_type(),
        Ok(Type::Array { element_type: Box::new(Type::I32), size: 4 })
    );
    assert_eq!(
        Parser::new("*[u8; 2] 'r").parse_type(),
        Ok(Type::Pointer(Box::new(Type::Array { element_type: Box::new(Type::U8), size: 2 }), RegionId(0)))
    );
}

#[test]
fn type_errors() {
    assert_eq!(
        Parser::new("").parse_type(),
        Err("Unexpected end of input while parsing type".to_string())
    );
    assert_eq!(Parser::new("x").parse_type(), Err("Unexpected token kind Ident at position 0".to_string()));
    assert_eq!(
        Parser::new("*i32").parse_type(),
        Err("Expected token kind Apostrophe, but found end of input".to_string())
    );
    assert_eq!(
        Parser::new("[u8; x]").parse_type(),
        Err("Expected token kind IntLit, but found Ident at position 5".to_string())
    );
    assert_eq!(
        Parser::new("[u8 4]").parse_type(),
        Err("Expected token kind Semicolon, but found IntLit at position 4".to_string())
    );
    assert_eq!(
        Parser::new("[u8; 99999999999999999999999]").parse_type(),
        Err("Invalid array size '99999999999999999999999' at position 5".to_string())
    );
}

#[test]
fn statements_of_each_kind() {
    assert_eq!(
        Parser::new("let x: i32 = 5").parse_statement(),
        Ok(Stmt::Let { identifier: typed("x", Type::I32), value: Box::new(int_lit(5)) })
    );
    assert_eq!(
        Parser::new("while x { x = 1 }").parse_statement(),
        Ok(Stmt::While {
            condition: Box::new(ident("x")),
            body: tail_block(vec![], Some(Expr::Assign { target: Box::new(ident("x")), value: Box::new(int_lit(1)) })),
        })
    );
    assert_eq!(
        Parser::new("for i: u8 in xs { }").parse_statement(),
        Ok(Stmt::For {
            iterator: typed("i", Type::U8),
            iterable: Box::new(ident("xs")),
            body: tail_block(vec![], None),
        })
    );
    assert_eq!(Parser::new("y").parse_statement(), Ok(Stmt::Expr(ident("y"))));
    assert_eq!(
        Parser::new("").parse_statement(),
        Err("Unexpected end of input while parsing statement".to_string())
    );
}

#[test]
fn block_tail_is_the_final_expression() {
    let let_a = Stmt::Let { identifier: typed("a", Type::U8), value: Box::new(int_lit(1)) };
    assert_eq!(
        Parser::new("{ let a: u8 = 1 a }").parse_block(),
        Ok(tail_block(vec![let_a], Some(ident("a"))))
    );
    let let_a = Stmt::Let { identifier: typed("a", Type::U8), value: Box::new(int_lit(1)) };
    assert_eq!(Parser::new("{ let a: u8 = 1 }").parse_block(), Ok(tail_block(vec![let_a], None)));
    assert_eq!(
        Parser::new("{ x y }").parse_block(),
        Ok(tail_block(vec![Stmt::Expr(ident("x"))], Some(ident("y"))))
    );
    assert_eq!(
        Parser::new("{ x").parse_block(),
        Err("Unexpected end of input while parsing block".to_string())
    );
    assert_eq!(
        Parser::new("x }").parse_block(),
        Err("Expected token kind LBrace, but found Ident at position 0".to_string())
    );
}

#[test]
fn module_of_declarations() {
    assert_eq!(
        Parser::new("struct Point { x: i32, y: i32 } enum Shape { Circle: u8 Square: u16, }").parse(),
        Ok(AST {
            toplevel_stmts: vec![
                ToplevelStmt::StructDecl {
                    name: "Point".to_string(),
                    fields: vec![typed("x", Type::I32), typed("y", Type::I32)],
                },
                ToplevelStmt::EnumDecl {
                    name: "Shape".to_string(),
                    variants: vec![typed("Circle", Type::U8), typed("Square", Type::U16)],
                },
            ],
        })
    );
    assert_eq!(Parser::new("").parse(), Ok(AST { toplevel_stmts: vec![] }));
    assert_eq!(
        Parser::new("struct Empty { }").parse_toplevel(),
        Ok(ToplevelStmt::StructDecl { name: "Empty".to_string(), fields: vec![] })
    );
}

#[test]
fn declaration_errors() {
    assert_eq!(Parser::new("let").parse(), Err("Unexpected token kind Let at position 0".to_string()));
    assert_eq!(
        Parser::new("struct S { x }").parse(),
        Err("Expected token kind Colon, but found RBrace at position 13".to_string())
    );
    assert_eq!(
        Parser::new("").parse_toplevel(),
        Err("Unexpected end of input while parsing toplevel statement".to_string())
    );
    assert_eq!(
        Parser::new("enum { }").parse(),
        Err("Expected token kind Ident, but found LBrace at position 5".to_string())
    );
}

#[test]
fn token_stream_primitives() {
    let mut parser = Parser::new("a , b");
    assert!(parser.peek_is(TokenKind::Ident));
    assert_eq!(parser.peek().map(|t| t.lexeme), Some("a"));
    assert!(parser.optional(TokenKind::Comma).is_none());
    assert!(!parser.previous_was(TokenKind::Ident));
    assert_eq!(parser.next().map(|t| t.lexeme), Some("a"));
    assert!(parser.previous_was(TokenKind::Ident));
    assert!(!parser.previous_was(TokenKind::Comma));
    assert_eq!(parser.optional(TokenKind::Comma).map(|t| t.span), Some(2..3));
    assert_eq!(
        parser.expect(TokenKind::Comma),
        Err("Expected token kind Comma, but found Ident at position 4".to_string())
    );
    assert!(parser.next().is_none());
    assert!(parser.peek().is_none());
    assert_eq!(
        parser.expect(TokenKind::Comma),
        Err("Expected token kind Comma, but found end of input".to_string())
    );
}

#[test]
fn any_of_lists_what_it_expected() {
    let mut parser = Parser::new("x u8");
    assert_eq!(
        parser.any_of(&[TokenKind::U8, TokenKind::I32]),
        Err("Expected one of [U8, I32], but found Ident at position 0".to_string())
    );
    assert_eq!(parser.any_of(&[TokenKind::U8, TokenKind::I32]).map(|t| t.kind), Ok(TokenKind::U8));
    assert_eq!(
        parser.any_of(&[TokenKind::U8]),
        Err("Expected one of [U8], but found end of input".to_string())
    );
}

#[test]
fn syntax_trees_and_types_clone_to_equal_values() {
    let ast = Parser::new("struct P { x: *[u8; 2] 'r, y: i32 } enum E { A: u8 }").parse().unwrap();
    assert_eq!(ast.clone(), ast);
    let expr = expression("if f(a, b) { let x: u8 = -y * 2 x } else { z = 'c' }").unwrap();
    assert_eq!(expr.clone(), expr);
    let ty = Type::Function {
        param_types: vec![Type::Pointer(Box::new(Type::U8), RegionId(1)), Type::Var(sorrel::ast::types::TypeId(2))],
        return_type: Box::new(Type::Array { element_type: Box::new(Type::Bool), size: 3 }),
    };
    assert_eq!(ty.clone(), ty);
    let lit = Literal::Array { elements: vec![int_lit(1), ident("q")], element_type: Some(Type::I64) };
    assert_eq!(lit.clone(), lit);
}
