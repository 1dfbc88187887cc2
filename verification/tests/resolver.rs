use langfront::ast::{Decl, Expr, FunctionParam, Span, Stmt, StmtBlock, Typespec};
use langfront::parser;
use langfront::resolve::ty::{Ty, TyKind};
use langfront::resolve::ty::TyId;
use langfront::resolve::{ResolveError, Scope, StructFieldDecl, Symbol, TyResolver};

#[test]
fn test_decl() {
    let mut parser_context = parser::Context::new();
    let u32_ident = parser_context.add_ident("u32");
    let main_ident = parser_context.add_ident("main");

    let mut res = TyResolver::new(&mut parser_context);
    let span = Span::new(0, 0);

    let decl = Decl::function(
        span.clone(),
        main_ident,
        vec![],
        Some(Typespec::name(span.clone(), u32_ident)),
        StmtBlock::new(span.clone()),
    );

    let ty = res.resolve_decl(&decl).expect("Failed to resolve func");
    assert_eq!(ty, res.symbol_ty(main_ident).unwrap());
}

#[test]
fn test_typespec() {
    let mut parser_context = parser::Context::new();
    let u32_ident = parser_context.add_ident("u32");

    let mut res = TyResolver::new(&mut parser_context);
    let span = Span::new(0, 0);

    let typespec = Typespec::name(span.clone(), u32_ident);
    let ty = res
        .resolve_typespec(&typespec)
        .expect("Failed to resolve typespec");
    assert_eq!(ty, res.u32());

    let typespec = Typespec::ptr(span.clone(), Typespec::name(span.clone(), u32_ident));
    let ty = res
        .resolve_typespec(&typespec)
        .expect("Failed to resolve typespec");
    assert_eq!(ty, res.ty_context.add_type(Ty::ptr(res.u32())));
    assert_ne!(ty, res.u32());
}

#[test]
fn test_typespec_resolution_is_stable() {
    // resolving the same written type twice yields the same handle
    let mut pc = parser::Context::new();
    let u32_ident = pc.add_ident("u32");
    let mut res = TyResolver::new(&mut pc);
    let span = Span::new(0, 0);

    let ts1 = Typespec::ptr(span, Typespec::name(span, u32_ident));
    let t1 = res.resolve_typespec(&ts1).unwrap();
    let ts2 = Typespec::ptr(span, Typespec::name(span, u32_ident));
    let t2 = res.resolve_typespec(&ts2).unwrap();
    assert_eq!(t1, t2);
}

#[test]
fn test_unknown_type_name() {
    let mut pc = parser::Context::new();
    let nope = pc.add_ident("nope");
    let mut res = TyResolver::new(&mut pc);
    let span = Span::new(0, 0);
    assert_eq!(
        res.resolve_typespec(&Typespec::name(span, nope)),
        Err(ResolveError::UnknownSymbol)
    );
}

#[test]
fn test_function_name_is_not_a_type() {
    let mut pc = parser::Context::new();
    let f = pc.add_ident("f");
    let mut res = TyResolver::new(&mut pc);
    let span = Span::new(0, 0);
    let decl = Decl::function(span, f, vec![], None, StmtBlock::new(span));
    res.resolve_decl(&decl).expect("Failed to resolve func");
    assert_eq!(
        res.resolve_typespec(&Typespec::name(span, f)),
        Err(ResolveError::NotAType)
    );
}

#[test]
fn test_duplicate_builtin_definition() {
    // redeclaring `u32` as a second global type symbol fails
    let mut pc = parser::Context::new();
    let u32_ident = pc.add_ident("u32");
    let mut res = TyResolver::new(&mut pc);
    let handle = res.u32();
    assert_eq!(
        res.add_symbol(Symbol::ty(u32_ident, handle)),
        Err(ResolveError::DuplicateDefinition)
    );
    let span = Span::new(0, 0);
    assert_eq!(
        res.add_type_alias(u32_ident, Typespec::name(span, u32_ident)),
        Err(ResolveError::DuplicateDefinition)
    );
}

#[test]
fn test_alias_cycle_fails() {
    // type A = A is a cyclic definition
    let mut pc = parser::Context::new();
    let a = pc.add_ident("A");
    let mut res = TyResolver::new(&mut pc);
    let span = Span::new(0, 0);
    res.add_type_alias(a, Typespec::name(span, a)).unwrap();
    assert_eq!(
        res.resolve_typespec(&Typespec::name(span, a)),
        Err(ResolveError::CyclicDefinition)
    );
}

#[test]
fn test_mutual_alias_cycle_fails() {
    let mut pc = parser::Context::new();
    let a = pc.add_ident("A");
    let b = pc.add_ident("B");
    let mut res = TyResolver::new(&mut pc);
    let span = Span::new(0, 0);
    res.add_type_alias(a, Typespec::name(span, b)).unwrap();
    res.add_type_alias(b, Typespec::name(span, a)).unwrap();
    assert_eq!(
        res.resolve_typespec(&Typespec::name(span, a)),
        Err(ResolveError::CyclicDefinition)
    );
}

#[test]
fn test_alias_chain_resolves() {
    // type A = u32; type B = A*; out-of-order references resolve lazily
    let mut pc = parser::Context::new();
    let u32_ident = pc.add_ident("u32");
    let a = pc.add_ident("A");
    let b = pc.add_ident("B");
    let mut res = TyResolver::new(&mut pc);
    let span = Span::new(0, 0);
    res.add_type_alias(b, Typespec::ptr(span, Typespec::name(span, a)))
        .unwrap();
    res.add_type_alias(a, Typespec::name(span, u32_ident))
        .unwrap();
    let tb = res.resolve_typespec(&Typespec::name(span, b)).unwrap();
    let expected = res.ty_context.add_type(Ty::ptr(res.u32()));
    assert_eq!(tb, expected);
    // the alias is now a cache hit
    assert_eq!(res.resolve_typespec(&Typespec::name(span, b)), Ok(tb));
}

#[test]
fn test_self_referential_struct_pointer_resolves() {
    // a struct field typed as pointer-to-itself resolves: the pointer breaks
    // the cycle at the value level
    let mut pc = parser::Context::new();
    let node = pc.add_ident("Node");
    let next = pc.add_ident("next");
    let mut res = TyResolver::new(&mut pc);
    let span = Span::new(0, 0);
    res.add_struct_decl(
        node,
        vec![StructFieldDecl {
            name: next,
            typespec: Typespec::ptr(span, Typespec::name(span, node)),
        }],
    )
    .unwrap();
    let t = res
        .resolve_typespec(&Typespec::name(span, node))
        .expect("self-referential pointer struct must resolve");
    // the struct's field is a pointer back to the struct's own handle
    match res.ty_context.get_type(t).get().kind() {
        TyKind::Struct { fields } => {
            assert_eq!(fields.len(), 1);
            let ft = fields[0].ty;
            match res.ty_context.get_type(ft).get().kind() {
                TyKind::Ptr(base) => assert_eq!(*base, t),
                _ => panic!("field must be a pointer"),
            }
        }
        _ => panic!("expected a struct type"),
    }
    // a value-level self reference (no pointer) must fail instead
    let mut pc2 = parser::Context::new();
    let bad = pc2.add_ident("Bad");
    let f = pc2.add_ident("f");
    let mut res2 = TyResolver::new(&mut pc2);
    res2.add_struct_decl(
        bad,
        vec![StructFieldDecl {
            name: f,
            typespec: Typespec::name(span, bad),
        }],
    )
    .unwrap();
    assert_eq!(
        res2.resolve_typespec(&Typespec::name(span, bad)),
        Err(ResolveError::CyclicDefinition)
    );
}

fn scenario_decls(
    pc: &mut parser::Context,
) -> (
    langfront::util::P<Decl>,
    langfront::util::P<Decl>,
    langfront::ast::Ident,
    langfront::ast::Ident,
) {
    // func add(a: u32, b: u32) -> s32 { var a: s32 = 0; ret a; }
    // func main(argc: s32, argv: s8**) -> s32 { var res: s32 = add(123, 321); ret 0; }
    let sp = Span::new(0, 0);
    let u32_id = pc.add_ident("u32");
    let s32_id = pc.add_ident("s32");
    let s8_id = pc.add_ident("s8");
    let add_id = pc.add_ident("add");
    let main_id = pc.add_ident("main");
    let a_id = pc.add_ident("a");
    let b_id = pc.add_ident("b");
    let argc_id = pc.add_ident("argc");
    let argv_id = pc.add_ident("argv");
    let res_id = pc.add_ident("res");

    let mut add_body = StmtBlock::new(sp);
    add_body.add_stmt(Stmt::var(
        sp,
        a_id,
        Typespec::name(sp, s32_id),
        Some(Expr::integer(sp, 0)),
    ));
    add_body.add_stmt(Stmt::ret(sp, Expr::ident(sp, a_id)));
    let add_decl = Decl::function(
        sp,
        add_id,
        vec![
            FunctionParam::new(sp, a_id, Typespec::name(sp, u32_id)),
            FunctionParam::new(sp, b_id, Typespec::name(sp, u32_id)),
        ],
        Some(Typespec::name(sp, s32_id)),
        add_body,
    );

    let mut main_body = StmtBlock::new(sp);
    main_body.add_stmt(Stmt::var(
        sp,
        res_id,
        Typespec::name(sp, s32_id),
        Some(Expr::call(
            sp,
            Expr::ident(sp, add_id),
            vec![Expr::integer(sp, 123), Expr::integer(sp, 321)],
        )),
    ));
    main_body.add_stmt(Stmt::ret(sp, Expr::integer(sp, 0)));
    let main_decl = Decl::function(
        sp,
        main_id,
        vec![
            FunctionParam::new(sp, argc_id, Typespec::name(sp, s32_id)),
            FunctionParam::new(
                sp,
                argv_id,
                Typespec::ptr(sp, Typespec::ptr(sp, Typespec::name(sp, s8_id))),
            ),
        ],
        Some(Typespec::name(sp, s32_id)),
        main_body,
    );
    (add_decl, main_decl, add_id, main_id)
}

#[test]
fn test_end_to_end_two_functions() {
    let mut pc = parser::Context::new();
    let (add_decl, main_decl, add_id, main_id) = scenario_decls(&mut pc);
    let mut res = TyResolver::new(&mut pc);

    let add_ty = res.resolve_decl(&add_decl).expect("add signature");
    let main_ty = res.resolve_decl(&main_decl).expect("main signature");
    assert_eq!(res.symbol_ty(add_id), Some(add_ty));
    assert_eq!(res.symbol_ty(main_id), Some(main_ty));

    // add: (u32, u32) -> s32
    match res.ty_context.get_type(add_ty).get().kind() {
        TyKind::Function {
            params,
            return_type,
        } => {
            assert_eq!(*params, vec![res.u32(), res.u32()]);
            assert_eq!(*return_type, res.s32());
        }
        _ => panic!("add must have function type"),
    }
    // main: (s32, ptr ptr s8) -> s32
    let s8_ptr = res.ty_context.add_type(Ty::ptr(res.s8()));
    let s8_ptr_ptr = res.ty_context.add_type(Ty::ptr(s8_ptr));
    match res.ty_context.get_type(main_ty).get().kind() {
        TyKind::Function {
            params,
            return_type,
        } => {
            assert_eq!(*params, vec![res.s32(), s8_ptr_ptr]);
            assert_eq!(*return_type, res.s32());
        }
        _ => panic!("main must have function type"),
    }

    res.resolve_decl_body(&add_decl).expect("add body");
    res.resolve_decl_body(&main_decl).expect("main body");
}

#[test]
fn test_call_arity_mismatch_rejected() {
    let mut pc = parser::Context::new();
    let (add_decl, _main_decl, add_id, _) = scenario_decls(&mut pc);
    let caller_id = pc.add_ident("caller");
    let x_id = pc.add_ident("x");
    let s32_id = pc.add_ident("s32");
    let mut res = TyResolver::new(&mut pc);
    res.resolve_decl(&add_decl).expect("add signature");

    let sp = Span::new(0, 0);
    let mut body = StmtBlock::new(sp);
    body.add_stmt(Stmt::var(
        sp,
        x_id,
        Typespec::name(sp, s32_id),
        Some(Expr::call(
            sp,
            Expr::ident(sp, add_id),
            vec![Expr::integer(sp, 123)],
        )),
    ));
    let caller = Decl::function(sp, caller_id, vec![], None, body);
    res.resolve_decl(&caller).expect("caller signature");
    assert_eq!(
        res.resolve_decl_body(&caller),
        Err(ResolveError::ArityMismatch)
    );
}

#[test]
fn test_call_argument_type_mismatch_rejected() {
    let mut pc = parser::Context::new();
    let (add_decl, _main_decl, add_id, _) = scenario_decls(&mut pc);
    let caller_id = pc.add_ident("caller");
    let x_id = pc.add_ident("x");
    let s32_id = pc.add_ident("s32");
    let mut res = TyResolver::new(&mut pc);
    res.resolve_decl(&add_decl).expect("add signature");

    let sp = Span::new(0, 0);
    let mut body = StmtBlock::new(sp);
    body.add_stmt(Stmt::var(
        sp,
        x_id,
        Typespec::name(sp, s32_id),
        Some(Expr::call(
            sp,
            Expr::ident(sp, add_id),
            vec![
                Expr::string(sp, String::from("x")),
                Expr::integer(sp, 1),
            ],
        )),
    ));
    let caller = Decl::function(sp, caller_id, vec![], None, body);
    res.resolve_decl(&caller).expect("caller signature");
    assert_eq!(
        res.resolve_decl_body(&caller),
        Err(ResolveError::TypeMismatch)
    );
}

#[test]
fn test_var_initializer_type_mismatch_rejected() {
    let mut pc = parser::Context::new();
    let f_id = pc.add_ident("f");
    let x_id = pc.add_ident("x");
    let u32_id = pc.add_ident("u32");
    let u8_id = pc.add_ident("u8");
    let y_id = pc.add_ident("y");
    let mut res = TyResolver::new(&mut pc);
    let sp = Span::new(0, 0);
    // var y: u8 = x; where x: u32
    let mut body = StmtBlock::new(sp);
    body.add_stmt(Stmt::var(sp, x_id, Typespec::name(sp, u32_id), None));
    body.add_stmt(Stmt::var(
        sp,
        y_id,
        Typespec::name(sp, u8_id),
        Some(Expr::ident(sp, x_id)),
    ));
    let f = Decl::function(sp, f_id, vec![], None, body);
    res.resolve_decl(&f).expect("signature");
    assert_eq!(res.resolve_decl_body(&f), Err(ResolveError::TypeMismatch));
}

#[test]
fn test_return_type_mismatch_rejected() {
    let mut pc = parser::Context::new();
    let f_id = pc.add_ident("f");
    let x_id = pc.add_ident("x");
    let u8_id = pc.add_ident("u8");
    let s32_id = pc.add_ident("s32");
    let mut res = TyResolver::new(&mut pc);
    let sp = Span::new(0, 0);
    // func f() -> s32 { var x: u8; ret x; }
    let mut body = StmtBlock::new(sp);
    body.add_stmt(Stmt::var(sp, x_id, Typespec::name(sp, u8_id), None));
    body.add_stmt(Stmt::ret(sp, Expr::ident(sp, x_id)));
    let f = Decl::function(sp, f_id, vec![], Some(Typespec::name(sp, s32_id)), body);
    res.resolve_decl(&f).expect("signature");
    assert_eq!(res.resolve_decl_body(&f), Err(ResolveError::TypeMismatch));
}

#[test]
fn test_call_of_non_function_rejected() {
    let mut pc = parser::Context::new();
    let f_id = pc.add_ident("f");
    let x_id = pc.add_ident("x");
    let u32_id = pc.add_ident("u32");
    let mut res = TyResolver::new(&mut pc);
    let sp = Span::new(0, 0);
    // func f() { var x: u32; x(); }
    let mut body = StmtBlock::new(sp);
    body.add_stmt(Stmt::var(sp, x_id, Typespec::name(sp, u32_id), None));
    body.add_stmt(Stmt::expr(sp, Expr::call(sp, Expr::ident(sp, x_id), vec![])));
    let f = Decl::function(sp, f_id, vec![], None, body);
    res.resolve_decl(&f).expect("signature");
    assert_eq!(res.resolve_decl_body(&f), Err(ResolveError::NotAFunction));
}

#[test]
fn test_unknown_symbol_in_body_rejected() {
    let mut pc = parser::Context::new();
    let f_id = pc.add_ident("f");
    let ghost_id = pc.add_ident("nowhere");
    let mut res = TyResolver::new(&mut pc);
    let sp = Span::new(0, 0);
    let mut body = StmtBlock::new(sp);
    body.add_stmt(Stmt::ret(sp, Expr::ident(sp, ghost_id)));
    let f = Decl::function(sp, f_id, vec![], None, body);
    res.resolve_decl(&f).expect("signature");
    assert_eq!(res.resolve_decl_body(&f), Err(ResolveError::UnknownSymbol));
}

#[test]
fn test_duplicate_function_definition_rejected() {
    let mut pc = parser::Context::new();
    let f_id = pc.add_ident("f");
    let mut res = TyResolver::new(&mut pc);
    let sp = Span::new(0, 0);
    let d1 = Decl::function(sp, f_id, vec![], None, StmtBlock::new(sp));
    let d2 = Decl::function(sp, f_id, vec![], None, StmtBlock::new(sp));
    res.resolve_decl(&d1).expect("first definition");
    assert_eq!(
        res.resolve_decl(&d2),
        Err(ResolveError::DuplicateDefinition)
    );
}

#[test]
fn test_shadowing_uses_most_recent_binding() {
    // a var may shadow a parameter; later references see the shadow
    let mut pc = parser::Context::new();
    let f_id = pc.add_ident("f");
    let a_id = pc.add_ident("a");
    let u32_id = pc.add_ident("u32");
    let s32_id = pc.add_ident("s32");
    let mut res = TyResolver::new(&mut pc);
    let sp = Span::new(0, 0);
    // func f(a: u32) -> s32 { var a: s32 = 0; ret a; }
    let mut body = StmtBlock::new(sp);
    body.add_stmt(Stmt::var(
        sp,
        a_id,
        Typespec::name(sp, s32_id),
        Some(Expr::integer(sp, 0)),
    ));
    body.add_stmt(Stmt::ret(sp, Expr::ident(sp, a_id)));
    let f = Decl::function(
        sp,
        f_id,
        vec![FunctionParam::new(sp, a_id, Typespec::name(sp, u32_id))],
        Some(Typespec::name(sp, s32_id)),
        body,
    );
    res.resolve_decl(&f).expect("signature");
    res.resolve_decl_body(&f).expect("body with shadowing");
}

#[test]
fn test_scope_push_pop_restores_depth() {
    let mut scope = Scope::new();
    scope.add_var(langfront::ast::Ident::new(1), TyId(0));
    let mark = scope.push();
    scope.add_var(langfront::ast::Ident::new(2), TyId(1));
    assert!(scope.find_symbol(langfront::ast::Ident::new(2)).is_some());
    scope.pop(mark);
    assert!(scope.find_symbol(langfront::ast::Ident::new(2)).is_none());
    assert!(scope.find_symbol(langfront::ast::Ident::new(1)).is_some());
}
