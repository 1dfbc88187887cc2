use langfront::resolve::ty::{Context, IntKind, StructField, Ty, TyKind};

#[test]
fn test_typ() {
    let mut context = Context::new();
    let u32_typ = context.add_type(Ty::integer(IntKind::U32));
    let u64_typ = context.add_type(Ty::integer(IntKind::U64));

    assert_eq!(u32_typ, context.add_type(Ty::integer(IntKind::U32)));
    assert_ne!(u32_typ, u64_typ);

    let ptr_typ = context.add_type(Ty::ptr(u32_typ));
    assert_eq!(ptr_typ, context.add_type(Ty::ptr(u32_typ)));
    assert_ne!(ptr_typ, context.add_type(Ty::ptr(u64_typ)));
    assert_ne!(ptr_typ, u32_typ);

    let func_typ = context.add_type(Ty::function(vec![u32_typ, u64_typ], u32_typ));
    assert_eq!(
        func_typ,
        context.add_type(Ty::function(vec![u32_typ, u64_typ], u32_typ))
    );
    assert_ne!(
        func_typ,
        context.add_type(Ty::function(vec![u32_typ, u64_typ], u64_typ))
    );
    assert_ne!(
        func_typ,
        context.add_type(Ty::function(vec![u64_typ, u64_typ], u32_typ))
    );
    assert_ne!(
        func_typ,
        context.add_type(Ty::function(vec![u64_typ], u32_typ))
    );

    let array_typ = context.add_type(Ty::array(u32_typ, 10));
    assert_eq!(array_typ, context.add_type(Ty::array(u32_typ, 10)));
    assert_ne!(array_typ, context.add_type(Ty::array(u64_typ, 10)));
    assert_ne!(array_typ, context.add_type(Ty::array(u32_typ, 11)));
    assert_ne!(array_typ, context.add_type(Ty::array(u64_typ, 11)));

    let struct_typ = context.add_type(Ty::struct_ty(vec![]));
    assert_ne!(struct_typ, context.add_type(Ty::struct_ty(vec![])));
}

#[test]
fn test_void_dedup() {
    let mut context = Context::new();
    let v1 = context.add_type(Ty::void());
    let v2 = context.add_type(Ty::void());
    assert_eq!(v1, v2);
}

#[test]
fn test_function_param_order_changes_handle() {
    let mut context = Context::new();
    let a = context.add_type(Ty::integer(IntKind::U8));
    let b = context.add_type(Ty::integer(IntKind::S64));
    let f_ab = context.add_type(Ty::function(vec![a, b], a));
    let f_ba = context.add_type(Ty::function(vec![b, a], a));
    assert_ne!(f_ab, f_ba);
}

#[test]
fn test_struct_fields_do_not_unify() {
    let mut context = Context::new();
    let u8t = context.add_type(Ty::integer(IntKind::U8));
    let s1 = context.add_type(Ty::struct_ty(vec![StructField::new(
        langfront::ast::Ident::new(0),
        u8t,
    )]));
    let s2 = context.add_type(Ty::struct_ty(vec![StructField::new(
        langfront::ast::Ident::new(0),
        u8t,
    )]));
    assert_ne!(s1, s2);

    // deduplicated kinds are unaffected by interleaved struct entries
    let u8_again = context.add_type(Ty::integer(IntKind::U8));
    assert_eq!(u8t, u8_again);
    match context.get_type(s1).get().kind() {
        TyKind::Struct { fields } => assert_eq!(fields.len(), 1),
        _ => panic!("expected a struct entry"),
    }
}

#[test]
fn test_insertion_order_independence_for_unrelated_types() {
    // interning unrelated descriptors in either order yields handles that
    // keep denoting the same descriptors
    let mut c1 = Context::new();
    let a1 = c1.add_type(Ty::integer(IntKind::U16));
    let b1 = c1.add_type(Ty::integer(IntKind::S8));

    let mut c2 = Context::new();
    let b2 = c2.add_type(Ty::integer(IntKind::S8));
    let a2 = c2.add_type(Ty::integer(IntKind::U16));

    match (c1.get_type(a1).get().kind(), c2.get_type(a2).get().kind()) {
        (TyKind::Int(k1), TyKind::Int(k2)) => assert_eq!(k1, k2),
        _ => panic!("expected integer entries"),
    }
    match (c1.get_type(b1).get().kind(), c2.get_type(b2).get().kind()) {
        (TyKind::Int(k1), TyKind::Int(k2)) => assert_eq!(k1, k2),
        _ => panic!("expected integer entries"),
    }
}
