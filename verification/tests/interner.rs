use langfront::parser::Context;

#[test]
fn test_intern_same_text_same_handle() {
    let mut ctx = Context::new();
    let a1 = ctx.add_ident("alpha");
    let b = ctx.add_ident("beta");
    let a2 = ctx.add_ident("alpha");
    assert_eq!(a1, a2);
    assert_ne!(a1, b);
}

#[test]
fn test_intern_roundtrip() {
    let mut ctx = Context::new();
    let a = ctx.add_ident("alpha");
    let b = ctx.add_ident("beta");
    assert_eq!(ctx.ident(a), "alpha");
    assert_eq!(ctx.ident(b), "beta");
    // handles are dense, in first-seen order
    assert_eq!(a.index(), 0);
    assert_eq!(b.index(), 1);
}
