use langfront::ast::{BinaryOp, ExprKind, TypespecKind, Span, StmtKind};
use langfront::parser::{
    parse_u64_decimal, process_decl, process_expr, process_stmt, process_typespec, BuildError,
    Context, ParseRule, ParseTree,
};

fn leaf(rule: ParseRule, text: &str) -> ParseTree {
    ParseTree {
        rule,
        text: text.to_string(),
        span: Span::new(0, 0),
        children: vec![],
    }
}

fn node(rule: ParseRule, children: Vec<ParseTree>) -> ParseTree {
    ParseTree {
        rule,
        text: String::new(),
        span: Span::new(0, 0),
        children,
    }
}

fn int_operand(text: &str) -> ParseTree {
    node(ParseRule::Base, vec![leaf(ParseRule::Integer, text)])
}

#[test]
fn test_parse_u64_decimal() {
    assert_eq!(parse_u64_decimal("0"), Some(0));
    assert_eq!(parse_u64_decimal("123"), Some(123));
    assert_eq!(parse_u64_decimal("18446744073709551615"), Some(u64::MAX));
    assert_eq!(parse_u64_decimal("18446744073709551616"), None);
    assert_eq!(parse_u64_decimal("12a"), None);
    assert_eq!(parse_u64_decimal(""), None);
}

#[test]
fn test_expr_precedence_mul_binds_tighter() {
    // 1 + 2 * 3  parses as  (add 1 (mul 2 3))
    let mut ctx = Context::new();
    let expr_node = node(
        ParseRule::Expr,
        vec![
            int_operand("1"),
            leaf(ParseRule::OpAdd, "+"),
            int_operand("2"),
            leaf(ParseRule::OpMultiply, "*"),
            int_operand("3"),
        ],
    );
    let e = process_expr(&mut ctx, &expr_node).expect("build expr");
    match e.get().kind() {
        ExprKind::Binary { op, left, right } => {
            assert_eq!(*op, BinaryOp::Add);
            match left.get().kind() {
                ExprKind::Integer(v) => assert_eq!(*v, 1),
                _ => panic!("left must be 1"),
            }
            match right.get().kind() {
                ExprKind::Binary { op, left, right } => {
                    assert_eq!(*op, BinaryOp::Multiply);
                    assert!(matches!(left.get().kind(), ExprKind::Integer(2)));
                    assert!(matches!(right.get().kind(), ExprKind::Integer(3)));
                }
                _ => panic!("right must be a product"),
            }
        }
        _ => panic!("top must be a sum"),
    }
}

#[test]
fn test_expr_left_associative_ties() {
    // 1 - 2 - 3  parses as  (sub (sub 1 2) 3)
    let mut ctx = Context::new();
    let expr_node = node(
        ParseRule::Expr,
        vec![
            int_operand("1"),
            leaf(ParseRule::OpMinus, "-"),
            int_operand("2"),
            leaf(ParseRule::OpMinus, "-"),
            int_operand("3"),
        ],
    );
    let e = process_expr(&mut ctx, &expr_node).expect("build expr");
    match e.get().kind() {
        ExprKind::Binary { op, left, right } => {
            assert_eq!(*op, BinaryOp::Minus);
            assert!(matches!(right.get().kind(), ExprKind::Integer(3)));
            match left.get().kind() {
                ExprKind::Binary { op, left, right } => {
                    assert_eq!(*op, BinaryOp::Minus);
                    assert!(matches!(left.get().kind(), ExprKind::Integer(1)));
                    assert!(matches!(right.get().kind(), ExprKind::Integer(2)));
                }
                _ => panic!("left must be the earlier difference"),
            }
        }
        _ => panic!("top must be a difference"),
    }
}

#[test]
fn test_expr_comparison_looser_than_arith() {
    // 1 + 2 < 3  parses as  (le (add 1 2) 3)
    let mut ctx = Context::new();
    let expr_node = node(
        ParseRule::Expr,
        vec![
            int_operand("1"),
            leaf(ParseRule::OpAdd, "+"),
            int_operand("2"),
            leaf(ParseRule::OpLessThan, "<"),
            int_operand("3"),
        ],
    );
    let e = process_expr(&mut ctx, &expr_node).expect("build expr");
    match e.get().kind() {
        ExprKind::Binary { op, left, .. } => {
            assert_eq!(*op, BinaryOp::LessThan);
            assert!(matches!(
                left.get().kind(),
                ExprKind::Binary {
                    op: BinaryOp::Add,
                    ..
                }
            ));
        }
        _ => panic!("top must be the comparison"),
    }
}

#[test]
fn test_string_literal_quotes_stripped() {
    let mut ctx = Context::new();
    let expr_node = node(
        ParseRule::Expr,
        vec![node(
            ParseRule::Base,
            vec![leaf(ParseRule::StringLit, "\"hello\"")],
        )],
    );
    let e = process_expr(&mut ctx, &expr_node).expect("build expr");
    match e.get().kind() {
        ExprKind::String(s) => assert_eq!(s, "hello"),
        _ => panic!("expected a string literal"),
    }
}

#[test]
fn test_call_and_index_suffixes() {
    // f(1, 2) and a[0]
    let mut ctx = Context::new();
    let call_node = node(
        ParseRule::Expr,
        vec![node(
            ParseRule::Base,
            vec![
                leaf(ParseRule::Ident, "f"),
                node(
                    ParseRule::FuncCall,
                    vec![node(
                        ParseRule::ArgList,
                        vec![
                            node(ParseRule::Expr, vec![int_operand("1")]),
                            node(ParseRule::Expr, vec![int_operand("2")]),
                        ],
                    )],
                ),
            ],
        )],
    );
    let e = process_expr(&mut ctx, &call_node).expect("build call");
    match e.get().kind() {
        ExprKind::Call { expr, args } => {
            assert!(matches!(expr.get().kind(), ExprKind::Ident(_)));
            assert_eq!(args.len(), 2);
        }
        _ => panic!("expected a call"),
    }

    let index_node = node(
        ParseRule::Expr,
        vec![node(
            ParseRule::Base,
            vec![
                leaf(ParseRule::Ident, "a"),
                node(
                    ParseRule::ArrayIndex,
                    vec![node(ParseRule::Expr, vec![int_operand("0")])],
                ),
            ],
        )],
    );
    let e = process_expr(&mut ctx, &index_node).expect("build index");
    assert!(matches!(e.get().kind(), ExprKind::Index { .. }));
}

#[test]
fn test_typespec_pointer_depth() {
    let mut ctx = Context::new();
    let ts_node = node(
        ParseRule::Typespec,
        vec![
            node(ParseRule::BaseTypespec, vec![leaf(ParseRule::Ident, "u32")]),
            leaf(ParseRule::Pointer, "**"),
        ],
    );
    let ts = process_typespec(&mut ctx, &ts_node).expect("build typespec");
    match ts.get().kind() {
        TypespecKind::Ptr(inner) => match inner.get().kind() {
            TypespecKind::Ptr(inner2) => {
                assert!(matches!(inner2.get().kind(), TypespecKind::Name(_)))
            }
            _ => panic!("expected two pointer layers"),
        },
        _ => panic!("expected a pointer"),
    }
}

#[test]
fn test_var_statement_shape() {
    // var x: u32 = 7;
    let mut ctx = Context::new();
    let stmt_node = node(
        ParseRule::Stmt,
        vec![node(
            ParseRule::StmtVar,
            vec![
                leaf(ParseRule::Ident, "x"),
                node(
                    ParseRule::Typespec,
                    vec![node(
                        ParseRule::BaseTypespec,
                        vec![leaf(ParseRule::Ident, "u32")],
                    )],
                ),
                node(ParseRule::Expr, vec![int_operand("7")]),
            ],
        )],
    );
    let st = process_stmt(&mut ctx, &stmt_node).expect("build stmt");
    match st.get().kind() {
        StmtKind::Var { name, expr, .. } => {
            assert_eq!(ctx.ident(*name), "x");
            assert!(expr.is_some());
        }
        _ => panic!("expected a var statement"),
    }
}

#[test]
fn test_malformed_tree_rejected() {
    let mut ctx = Context::new();
    // an operand where a whole declaration is expected
    let bad = int_operand("1");
    assert!(matches!(
        process_decl(&mut ctx, &bad),
        Err(BuildError::MalformedTree)
    ));
    // an even operand/operator stream is malformed
    let bad_expr = node(
        ParseRule::Expr,
        vec![int_operand("1"), leaf(ParseRule::OpAdd, "+")],
    );
    assert!(matches!(
        process_expr(&mut ctx, &bad_expr),
        Err(BuildError::MalformedTree)
    ));
    // an oversized integer literal is rejected
    let big = node(
        ParseRule::Expr,
        vec![int_operand("99999999999999999999999999")],
    );
    assert!(matches!(
        process_expr(&mut ctx, &big),
        Err(BuildError::BadIntegerLiteral)
    ));
}
