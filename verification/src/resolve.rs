//! Name and type resolution: global symbols, per-function scopes, lazy
//! cycle-detecting resolution of type declarations, and type-checking of
//! function bodies against expected types.

pub mod ty;

use vstd::prelude::*;

use crate::ast::{
    BinaryOp, Decl, DeclKind, Expr, ExprKind, Ident, Stmt, StmtBlock, StmtKind, Typespec,
    TypespecKind,
};
use crate::parser;
use crate::util::P;
use ty::{same_ty, table_wf, ty_found, intern_ty_id, intern_ty_table, StructField, Ty, TyId, TyKind, IntKind};

verus! {

/// Handle for one resolved global declaration (reserved for later passes).
#[derive(Copy, Clone, PartialEq, Eq, Structural, Debug)]
pub struct DefId {
    pub index: usize,
}

/// Why a resolution pass failed. Every error aborts the pass.
#[derive(Copy, Clone, PartialEq, Eq, Structural, Debug)]
pub enum ResolveError {
    /// A global name was declared twice.
    DuplicateDefinition,
    /// An identifier was referenced with no matching symbol in scope.
    UnknownSymbol,
    /// A name used in a type position denotes a non-type symbol.
    NotAType,
    /// A call's callee does not have function type.
    NotAFunction,
    /// A checked expression's type differs from the expected type.
    TypeMismatch,
    /// A global type symbol's resolution depends on itself.
    CyclicDefinition,
    /// A call passes the wrong number of arguments.
    ArityMismatch,
}

/// Classification of a named entity.
#[derive(Copy, Clone, PartialEq, Eq, Structural, Debug)]
pub enum SymbolKind {
    Ty,
    Var,
    Function,
}

/// A named entity whose type is already resolved; local symbols are always
/// in this form, and global symbols reach it as their terminal state.
#[derive(Copy, Clone, PartialEq, Eq, Structural, Debug)]
pub struct Symbol {
    pub kind: SymbolKind,
    pub name: Ident,
    pub ty: TyId,
}

impl Symbol {
    pub fn ty(name: Ident, ty: TyId) -> (r: Self)
        ensures
            r == (Symbol { kind: SymbolKind::Ty, name, ty }),
    {
        Self { kind: SymbolKind::Ty, name, ty }
    }

    pub fn var(name: Ident, ty: TyId) -> (r: Self)
        ensures
            r == (Symbol { kind: SymbolKind::Var, name, ty }),
    {
        Self { kind: SymbolKind::Var, name, ty }
    }

    pub fn function(name: Ident, ty: TyId) -> (r: Self)
        ensures
            r == (Symbol { kind: SymbolKind::Function, name, ty }),
    {
        Self { kind: SymbolKind::Function, name, ty }
    }
}

/// Where an unresolved global type symbol's definition lives: an index into
/// the resolver's alias table or struct-declaration table.
#[derive(Copy, Clone, PartialEq, Eq, Structural, Debug)]
pub enum TypeDef {
    Alias(usize),
    StructDecl(usize),
}

/// Resolution state of a global symbol. States only ever advance
/// `Unresolved -> Resolving -> Resolved`; observing `Resolving` while
/// resolving a name is the cyclic-definition error. A struct declaration
/// carries its pre-allocated handle while `Resolving`, which is what lets a
/// pointer break a definition cycle.
#[derive(Copy, Clone, PartialEq, Eq, Structural, Debug)]
pub enum SymbolState {
    Unresolved(TypeDef),
    Resolving(Option<TyId>),
    Resolved(TyId),
}

/// One global symbol: name, kind, and resolution state.
#[derive(Copy, Clone, PartialEq, Eq, Structural, Debug)]
pub struct GlobalEntry {
    pub kind: SymbolKind,
    pub name: Ident,
    pub state: SymbolState,
}

/// One field of a struct declaration, before resolution.
pub struct StructFieldDecl {
    pub name: Ident,
    pub typespec: P<Typespec>,
}

// ------------------------------------------------------------------
// Lookup models
// ------------------------------------------------------------------

/// Lookup in a local scope: the most recently pushed symbol with the given
/// name shadows earlier ones.
pub open spec fn scope_lookup(locals: Seq<Symbol>, name: Ident) -> Option<Symbol>
    decreases locals.len(),
{
    if locals.len() == 0 {
        None
    } else if locals.last().name == name {
        Some(locals.last())
    } else {
        scope_lookup(locals.drop_last(), name)
    }
}

/// Lookup in the global symbol table (names are unique, so scanning from
/// either end finds the same entry).
pub open spec fn globals_lookup(syms: Seq<GlobalEntry>, name: Ident) -> Option<GlobalEntry>
    decreases syms.len(),
{
    if syms.len() == 0 {
        None
    } else if syms.last().name == name {
        Some(syms.last())
    } else {
        globals_lookup(syms.drop_last(), name)
    }
}

/// No two global symbols share a name.
pub open spec fn distinct_global_names(syms: Seq<GlobalEntry>) -> bool {
    forall|i: int, j: int|
        0 <= i < syms.len() && 0 <= j < syms.len() && i != j ==> (#[trigger] syms[i]).name != (
        #[trigger] syms[j]).name
}

proof fn lemma_scope_lookup_none(locals: Seq<Symbol>, name: Ident)
    requires
        forall|k: int| 0 <= k < locals.len() ==> (#[trigger] locals[k]).name != name,
    ensures
        scope_lookup(locals, name) is None,
    decreases locals.len(),
{
    if locals.len() > 0 {
        lemma_scope_lookup_none(locals.drop_last(), name);
    }
}

proof fn lemma_scope_lookup_hit(locals: Seq<Symbol>, name: Ident, i: int)
    requires
        0 <= i < locals.len(),
        locals[i].name == name,
        forall|k: int| i < k < locals.len() ==> (#[trigger] locals[k]).name != name,
    ensures
        scope_lookup(locals, name) == Some(locals[i]),
    decreases locals.len(),
{
    if i + 1 == locals.len() {
    } else {
        lemma_scope_lookup_hit(locals.drop_last(), name, i);
    }
}

proof fn lemma_globals_lookup_none(syms: Seq<GlobalEntry>, name: Ident)
    requires
        forall|k: int| 0 <= k < syms.len() ==> (#[trigger] syms[k]).name != name,
    ensures
        globals_lookup(syms, name) is None,
    decreases syms.len(),
{
    if syms.len() > 0 {
        lemma_globals_lookup_none(syms.drop_last(), name);
    }
}

/// In a duplicate-free table, any entry with the right name is the lookup
/// result.
proof fn lemma_globals_lookup_at(syms: Seq<GlobalEntry>, name: Ident, i: int)
    requires
        distinct_global_names(syms),
        0 <= i < syms.len(),
        syms[i].name == name,
    ensures
        globals_lookup(syms, name) == Some(syms[i]),
    decreases syms.len(),
{
    if i + 1 == syms.len() {
    } else {
        assert(syms.last().name != name);
        lemma_globals_lookup_at(syms.drop_last(), name, i);
    }
}

/// Updating entry `i` without changing its name moves lookup of that name to
/// the new entry and leaves every other name's lookup unchanged.
proof fn lemma_globals_lookup_update(syms: Seq<GlobalEntry>, i: int, e: GlobalEntry, name: Ident)
    requires
        distinct_global_names(syms),
        0 <= i < syms.len(),
        e.name == syms[i].name,
    ensures
        globals_lookup(syms.update(i, e), name) == (if name == e.name {
            match globals_lookup(syms, name) {
                Some(_) => Some(e),
                None => None,
            }
        } else {
            globals_lookup(syms, name)
        }),
    decreases syms.len(),
{
    let syms2 = syms.update(i, e);
    assert(syms2.len() == syms.len());
    if i + 1 == syms.len() {
        assert(syms2.last() == e);
        assert(syms2.drop_last() =~= syms.drop_last());
        if syms.last().name == name {
        } else {
        }
    } else {
        assert(syms2.last() == syms.last());
        assert(syms2.drop_last() =~= syms.drop_last().update(i, e));
        assert(distinct_global_names(syms.drop_last())) by {
            assert forall|a: int, b: int|
                0 <= a < syms.drop_last().len() && 0 <= b < syms.drop_last().len() && a != b implies (
            #[trigger] syms.drop_last()[a]).name != (#[trigger] syms.drop_last()[b]).name by {
                assert(syms.drop_last()[a] == syms[a]);
                assert(syms.drop_last()[b] == syms[b]);
            }
        }
        lemma_globals_lookup_update(syms.drop_last(), i, e, name);
        if syms.last().name == name {
            assert(name != e.name);
        }
    }
}

// ------------------------------------------------------------------
// State evolution
// ------------------------------------------------------------------

/// The handle a global symbol currently stands for, if any: its resolved
/// handle, or the placeholder handle of a struct still being resolved.
pub open spec fn sym_handle(e: GlobalEntry) -> Option<TyId> {
    match e.state {
        SymbolState::Resolved(t) => Some(t),
        SymbolState::Resolving(ph) => ph,
        SymbolState::Unresolved(_) => None,
    }
}

/// Legal evolution of one global symbol during resolution: name and kind are
/// fixed; the state may only move forward, and a handle once attached never
/// changes.
pub open spec fn entry_advances(old_e: GlobalEntry, new_e: GlobalEntry) -> bool {
    &&& new_e.name == old_e.name
    &&& new_e.kind == old_e.kind
    &&& match old_e.state {
        SymbolState::Resolved(t) => new_e.state == SymbolState::Resolved(t),
        SymbolState::Resolving(ph) => new_e.state == old_e.state || (match ph {
            Some(t) => new_e.state == SymbolState::Resolved(t),
            None => new_e.state is Resolved,
        }),
        SymbolState::Unresolved(_) => new_e.state == old_e.state || new_e.state is Resolving
            || new_e.state is Resolved,
    }
}

/// Pointwise legal evolution of the whole global table (no entries appear or
/// disappear during typespec resolution).
pub open spec fn syms_advance(new: Seq<GlobalEntry>, old: Seq<GlobalEntry>) -> bool {
    &&& new.len() == old.len()
    &&& forall|i: int| 0 <= i < old.len() ==> entry_advances(#[trigger] old[i], #[trigger] new[i])
}

pub proof fn lemma_syms_advance_refl(syms: Seq<GlobalEntry>)
    ensures
        syms_advance(syms, syms),
{
}

pub proof fn lemma_syms_advance_trans(s3: Seq<GlobalEntry>, s2: Seq<GlobalEntry>, s1: Seq<GlobalEntry>)
    requires
        syms_advance(s2, s1),
        syms_advance(s3, s2),
    ensures
        syms_advance(s3, s1),
{
    assert forall|i: int| 0 <= i < s1.len() implies entry_advances(
        #[trigger] s1[i],
        #[trigger] s3[i],
    ) by {
        assert(entry_advances(s1[i], s2[i]));
        assert(entry_advances(s2[i], s3[i]));
    }
}

/// Lookup of an advanced table returns the advanced entry.
proof fn lemma_globals_lookup_advance(new: Seq<GlobalEntry>, old: Seq<GlobalEntry>, name: Ident)
    requires
        syms_advance(new, old),
    ensures
        globals_lookup(old, name) is None ==> globals_lookup(new, name) is None,
        globals_lookup(old, name) is Some ==> globals_lookup(new, name) is Some && entry_advances(
            globals_lookup(old, name)->Some_0,
            globals_lookup(new, name)->Some_0,
        ),
    decreases old.len(),
{
    if old.len() > 0 {
        assert(entry_advances(old.last(), new.last()));
        assert(new.drop_last() =~= new.subrange(0, old.len() - 1));
        assert(syms_advance(new.drop_last(), old.drop_last()));
        lemma_globals_lookup_advance(new.drop_last(), old.drop_last(), name);
    }
}

/// Evolution of one type-table entry: struct entries may have their fields
/// filled in; every other entry is immutable.
pub open spec fn ty_entry_evolves(old_t: Ty, new_t: Ty) -> bool {
    new_t == old_t || (old_t.kind is Struct && new_t.kind is Struct)
}

/// The type table only grows, and existing entries only evolve as above.
pub open spec fn tt_extends(new: Seq<Ty>, old: Seq<Ty>) -> bool {
    &&& new.len() >= old.len()
    &&& forall|i: int| 0 <= i < old.len() ==> ty_entry_evolves(#[trigger] old[i], #[trigger] new[i])
}

pub proof fn lemma_tt_extends_trans(t3: Seq<Ty>, t2: Seq<Ty>, t1: Seq<Ty>)
    requires
        tt_extends(t2, t1),
        tt_extends(t3, t2),
    ensures
        tt_extends(t3, t1),
{
    assert forall|i: int| 0 <= i < t1.len() implies ty_entry_evolves(
        #[trigger] t1[i],
        #[trigger] t3[i],
    ) by {
        assert(ty_entry_evolves(t1[i], t2[i]));
        assert(ty_entry_evolves(t2[i], t3[i]));
    }
}

// ------------------------------------------------------------------
// Denotation of typespecs
// ------------------------------------------------------------------

/// `t` is the handle that the written type `ts` stands for in the given
/// tables: a name denotes the handle its (type-kind) symbol carries, and a
/// pointer denotes an interned pointer entry over its inner type's handle.
pub open spec fn ts_denotes(tt: Seq<Ty>, syms: Seq<GlobalEntry>, ts: Typespec, t: TyId) -> bool
    decreases ts,
{
    match ts.kind {
        TypespecKind::Name(id) => match globals_lookup(syms, id) {
            Some(e) => e.kind == SymbolKind::Ty && sym_handle(e) == Some(t),
            None => false,
        },
        TypespecKind::Ptr(inner) => t.0 < tt.len() && match tt[t.0 as int].kind {
            TyKind::Ptr(b) => ts_denotes(tt, syms, *inner.ptr, b),
            _ => false,
        },
    }
}

/// Like `ts_denotes`, but every name on the way must already be fully
/// `Resolved` (no placeholder handles). This is the premise under which a
/// repeated resolution is guaranteed to return the same handle without
/// touching any state.
pub open spec fn ts_resolved_to(tt: Seq<Ty>, syms: Seq<GlobalEntry>, ts: Typespec, t: TyId) -> bool
    decreases ts,
{
    match ts.kind {
        TypespecKind::Name(id) => match globals_lookup(syms, id) {
            Some(e) => e.kind == SymbolKind::Ty && e.state == SymbolState::Resolved(t),
            None => false,
        },
        TypespecKind::Ptr(inner) => t.0 < tt.len() && match tt[t.0 as int].kind {
            TyKind::Ptr(b) => ts_resolved_to(tt, syms, *inner.ptr, b),
            _ => false,
        },
    }
}

/// Denotation is preserved as the tables grow and symbol states advance.
pub proof fn lemma_ts_denotes_mono(
    tt1: Seq<Ty>,
    syms1: Seq<GlobalEntry>,
    tt2: Seq<Ty>,
    syms2: Seq<GlobalEntry>,
    ts: Typespec,
    t: TyId,
)
    requires
        ts_denotes(tt1, syms1, ts, t),
        tt_extends(tt2, tt1),
        syms_advance(syms2, syms1),
    ensures
        ts_denotes(tt2, syms2, ts, t),
    decreases ts,
{
    match ts.kind {
        TypespecKind::Name(id) => {
            let e = globals_lookup(syms1, id)->Some_0;
            lemma_globals_lookup_advance(syms2, syms1, id);
        },
        TypespecKind::Ptr(inner) => {
            assert(ty_entry_evolves(tt1[t.0 as int], tt2[t.0 as int]));
            let b = tt1[t.0 as int].kind->Ptr_0;
            lemma_ts_denotes_mono(tt1, syms1, tt2, syms2, *inner.ptr, b);
        },
    }
}

/// In a deduplicated table, a typespec denotes at most one handle.
pub proof fn lemma_ts_denotes_unique(
    tt: Seq<Ty>,
    syms: Seq<GlobalEntry>,
    ts: Typespec,
    t1: TyId,
    t2: TyId,
)
    requires
        ty::distinct_tys(tt),
        ts_denotes(tt, syms, ts, t1),
        ts_denotes(tt, syms, ts, t2),
    ensures
        t1 == t2,
    decreases ts,
{
    match ts.kind {
        TypespecKind::Name(_) => {},
        TypespecKind::Ptr(inner) => {
            let b1 = tt[t1.0 as int].kind->Ptr_0;
            let b2 = tt[t2.0 as int].kind->Ptr_0;
            lemma_ts_denotes_unique(tt, syms, *inner.ptr, b1, b2);
            if t1 != t2 {
                assert(same_ty(tt[t1.0 as int], tt[t2.0 as int]));
            }
        },
    }
}

/// When no symbol is stuck in `Resolving`, the liberal and strict
/// denotation relations coincide.
pub proof fn lemma_ts_denotes_strict(
    tt: Seq<Ty>,
    syms: Seq<GlobalEntry>,
    ts: Typespec,
    t: TyId,
)
    requires
        ts_denotes(tt, syms, ts, t),
        forall|i: int| 0 <= i < syms.len() ==> !((#[trigger] syms[i]).state is Resolving),
    ensures
        ts_resolved_to(tt, syms, ts, t),
    decreases ts,
{
    match ts.kind {
        TypespecKind::Name(id) => {
            let e = globals_lookup(syms, id)->Some_0;
            lemma_globals_lookup_some_in(syms, id);
        },
        TypespecKind::Ptr(inner) => {
            let b = tt[t.0 as int].kind->Ptr_0;
            lemma_ts_denotes_strict(tt, syms, *inner.ptr, b);
        },
    }
}

/// A successful lookup returns one of the table's entries.
proof fn lemma_globals_lookup_some_in(syms: Seq<GlobalEntry>, name: Ident)
    ensures
        forall|e: GlobalEntry|
            #[trigger] globals_lookup(syms, name) == Some(e) ==> exists|i: int|
                0 <= i < syms.len() && #[trigger] syms[i] == e,
    decreases syms.len(),
{
    if syms.len() > 0 {
        lemma_globals_lookup_some_in(syms.drop_last(), name);
        assert forall|e: GlobalEntry| #[trigger] globals_lookup(syms, name) == Some(e) implies exists|
            i: int,
        | 0 <= i < syms.len() && #[trigger] syms[i] == e by {
            if syms.last().name == name {
                assert(syms[syms.len() - 1] == e);
            } else {
                let i = choose|i: int| 0 <= i < syms.drop_last().len() && syms.drop_last()[i] == e;
                assert(syms[i] == e);
            }
        }
    }
}

// ------------------------------------------------------------------
// Pending (unresolved) symbol count, the termination measure of lazy
// resolution
// ------------------------------------------------------------------

/// How many global symbols are still `Unresolved`.
pub open spec fn pending_count(syms: Seq<GlobalEntry>) -> nat
    decreases syms.len(),
{
    if syms.len() == 0 {
        0
    } else {
        pending_count(syms.drop_last()) + (if syms.last().state is Unresolved {
            1nat
        } else {
            0nat
        })
    }
}

proof fn lemma_pending_count_update(syms: Seq<GlobalEntry>, i: int, e: GlobalEntry)
    requires
        0 <= i < syms.len(),
    ensures
        pending_count(syms.update(i, e)) == pending_count(syms) - (
        if syms[i].state is Unresolved {
            1int
        } else {
            0int
        }) + (if e.state is Unresolved {
            1int
        } else {
            0int
        }),
    decreases syms.len(),
{
    let syms2 = syms.update(i, e);
    if i + 1 == syms.len() {
        assert(syms2.last() == e);
        assert(syms2.drop_last() =~= syms.drop_last());
    } else {
        assert(syms2.last() == syms.last());
        assert(syms2.drop_last() =~= syms.drop_last().update(i, e));
        lemma_pending_count_update(syms.drop_last(), i, e);
    }
}

proof fn lemma_pending_count_push(syms: Seq<GlobalEntry>, e: GlobalEntry)
    ensures
        pending_count(syms.push(e)) == pending_count(syms) + (if e.state is Unresolved {
            1nat
        } else {
            0nat
        }),
{
    assert(syms.push(e).drop_last() =~= syms);
}

// ------------------------------------------------------------------
// Scope
// ------------------------------------------------------------------

/// The stack of local symbols visible while resolving one function body:
/// parameters first, then block-locals in declaration order. Lookup walks the
/// stack backwards, so later bindings shadow earlier ones.
pub struct Scope {
    local_symbols: Vec<Symbol>,
}

impl View for Scope {
    type V = Seq<Symbol>;

    closed spec fn view(&self) -> Seq<Symbol> {
        self.local_symbols@
    }
}

impl Scope {
    pub fn new() -> (r: Self)
        ensures
            r@ == Seq::<Symbol>::empty(),
    {
        Self { local_symbols: Vec::new() }
    }

    pub fn add_var(&mut self, name: Ident, ty: TyId)
        ensures
            final(self)@ == old(self)@.push(Symbol { kind: SymbolKind::Var, name, ty }),
    {
        self.local_symbols.push(Symbol::var(name, ty));
    }

    /// Find the most recent local symbol with the given name.
    #[verifier::loop_isolation(false)]
    pub fn find_symbol(&self, name: Ident) -> (r: Option<&Symbol>)
        ensures
            match r {
                Some(s) => scope_lookup(self@, name) == Some(*s),
                None => scope_lookup(self@, name) is None,
            },
    {
        let n = self.local_symbols.len();
        let mut i = n;
        while i > 0
            invariant
                i <= n,
                forall|k: int| i <= k < n ==> (#[trigger] self@[k]).name != name,
            decreases i,
        {
            i = i - 1;
            if self.local_symbols[i].name == name {
                proof {
                    lemma_scope_lookup_hit(self@, name, i as int);
                }
                return Some(&self.local_symbols[i]);
            }
        }
        proof {
            lemma_scope_lookup_none(self@, name);
        }
        None
    }

    /// Save the current stack depth before entering a nested block.
    pub fn push(&mut self) -> (r: usize)
        ensures
            final(self)@ == old(self)@,
            r == old(self)@.len(),
    {
        self.local_symbols.len()
    }

    /// Drop the locals of a nested block, restoring a saved depth.
    pub fn pop(&mut self, index: usize)
        ensures
            index <= old(self)@.len() ==> final(self)@ == old(self)@.take(index as int),
            index > old(self)@.len() ==> final(self)@ == old(self)@,
    {
        self.local_symbols.truncate(index);
        proof {
            if index <= old(self)@.len() {
                assert(old(self)@.subrange(0, index as int) =~= old(self)@.take(index as int));
            }
        }
    }
}


// ------------------------------------------------------------------
// The resolver
// ------------------------------------------------------------------

/// Handles of the pre-registered builtin primitive types.
#[derive(Copy, Clone, PartialEq, Eq, Structural, Debug)]
pub struct BuiltinTypes {
    pub ty_u8: TyId,
    pub ty_u16: TyId,
    pub ty_u32: TyId,
    pub ty_u64: TyId,
    pub ty_s8: TyId,
    pub ty_s16: TyId,
    pub ty_s32: TyId,
    pub ty_s64: TyId,
    pub ty_void: TyId,
}

/// The resolver for one compilation unit: the type table, the global symbol
/// table, and the stored definitions of lazily resolved type declarations.
pub struct TyResolver {
    pub ty_context: ty::Context,
    pub builtin_types: BuiltinTypes,
    pub symbols: Vec<GlobalEntry>,
    pub alias_defs: Vec<P<Typespec>>,
    pub struct_defs: Vec<Vec<StructFieldDecl>>,
}

/// Validity of one global entry against the sizes of the tables it points
/// into; only type symbols may be unresolved or in progress.
pub open spec fn entry_valid(e: GlobalEntry, tt_len: int, n_alias: int, n_struct: int) -> bool {
    match e.state {
        SymbolState::Resolved(t) => t.0 < tt_len,
        SymbolState::Resolving(ph) => e.kind == SymbolKind::Ty && (match ph {
            Some(t) => t.0 < tt_len,
            None => true,
        }),
        SymbolState::Unresolved(d) => e.kind == SymbolKind::Ty && (match d {
            TypeDef::Alias(k) => k < n_alias,
            TypeDef::StructDecl(k) => k < n_struct,
        }),
    }
}

/// The builtin handles point at the nine primitive descriptors.
pub open spec fn builtins_wf(bt: BuiltinTypes, tt: Seq<Ty>) -> bool {
    &&& bt.ty_u8.0 < tt.len() && tt[bt.ty_u8.0 as int].kind == TyKind::Int(IntKind::U8)
    &&& bt.ty_u16.0 < tt.len() && tt[bt.ty_u16.0 as int].kind == TyKind::Int(IntKind::U16)
    &&& bt.ty_u32.0 < tt.len() && tt[bt.ty_u32.0 as int].kind == TyKind::Int(IntKind::U32)
    &&& bt.ty_u64.0 < tt.len() && tt[bt.ty_u64.0 as int].kind == TyKind::Int(IntKind::U64)
    &&& bt.ty_s8.0 < tt.len() && tt[bt.ty_s8.0 as int].kind == TyKind::Int(IntKind::S8)
    &&& bt.ty_s16.0 < tt.len() && tt[bt.ty_s16.0 as int].kind == TyKind::Int(IntKind::S16)
    &&& bt.ty_s32.0 < tt.len() && tt[bt.ty_s32.0 as int].kind == TyKind::Int(IntKind::S32)
    &&& bt.ty_s64.0 < tt.len() && tt[bt.ty_s64.0 as int].kind == TyKind::Int(IntKind::S64)
    &&& bt.ty_void.0 < tt.len() && tt[bt.ty_void.0 as int].kind == TyKind::Void
}

/// Well-formedness of a resolver: deduplicated closed type table, unique
/// global names, every entry pointing into the tables, builtins seeded.
pub open spec fn resolver_wf(r: TyResolver) -> bool {
    &&& table_wf(r.ty_context@)
    &&& distinct_global_names(r.symbols@)
    &&& forall|i: int|
        0 <= i < r.symbols@.len() ==> entry_valid(
            #[trigger] r.symbols@[i],
            r.ty_context@.len() as int,
            r.alias_defs@.len() as int,
            r.struct_defs@.len() as int,
        )
    &&& builtins_wf(r.builtin_types, r.ty_context@)
}

/// The stored declarations and builtin handles are unchanged between two
/// resolver states.
pub open spec fn same_defs(a: TyResolver, b: TyResolver) -> bool {
    &&& a.builtin_types == b.builtin_types
    &&& a.alias_defs@ == b.alias_defs@
    &&& a.struct_defs@ == b.struct_defs@
}

/// The nine builtin type descriptors, in registration order.
pub open spec fn builtin_descriptors() -> Seq<Ty> {
    seq![
        Ty { kind: TyKind::Int(IntKind::U8) },
        Ty { kind: TyKind::Int(IntKind::U16) },
        Ty { kind: TyKind::Int(IntKind::U32) },
        Ty { kind: TyKind::Int(IntKind::U64) },
        Ty { kind: TyKind::Int(IntKind::S8) },
        Ty { kind: TyKind::Int(IntKind::S16) },
        Ty { kind: TyKind::Int(IntKind::S32) },
        Ty { kind: TyKind::Int(IntKind::S64) },
        Ty { kind: TyKind::Void },
    ]
}

/// The exact state of a freshly seeded resolver: the interner has interned
/// the nine builtin names in order (`pc0` before, `pc1` after), the type
/// table holds exactly the nine builtin descriptors, and each builtin name is
/// a resolved global type symbol bound to its descriptor's handle.
pub open spec fn builtin_env(
    pc0: Seq<Seq<char>>,
    pc1: Seq<Seq<char>>,
    tt: Seq<Ty>,
    syms: Seq<GlobalEntry>,
    bt: BuiltinTypes,
) -> bool {
    let id_u8 = Ident(parser::intern_ident_id(pc0, "u8"@) as usize);
    let t1 = parser::intern_ident_table(pc0, "u8"@);
    let id_u16 = Ident(parser::intern_ident_id(t1, "u16"@) as usize);
    let t2 = parser::intern_ident_table(t1, "u16"@);
    let id_u32 = Ident(parser::intern_ident_id(t2, "u32"@) as usize);
    let t3 = parser::intern_ident_table(t2, "u32"@);
    let id_u64 = Ident(parser::intern_ident_id(t3, "u64"@) as usize);
    let t4 = parser::intern_ident_table(t3, "u64"@);
    let id_s8 = Ident(parser::intern_ident_id(t4, "s8"@) as usize);
    let t5 = parser::intern_ident_table(t4, "s8"@);
    let id_s16 = Ident(parser::intern_ident_id(t5, "s16"@) as usize);
    let t6 = parser::intern_ident_table(t5, "s16"@);
    let id_s32 = Ident(parser::intern_ident_id(t6, "s32"@) as usize);
    let t7 = parser::intern_ident_table(t6, "s32"@);
    let id_s64 = Ident(parser::intern_ident_id(t7, "s64"@) as usize);
    let t8 = parser::intern_ident_table(t7, "s64"@);
    let id_void = Ident(parser::intern_ident_id(t8, "void"@) as usize);
    let t9 = parser::intern_ident_table(t8, "void"@);
    &&& pc1 == t9
    &&& tt == builtin_descriptors()
    &&& bt == (BuiltinTypes {
        ty_u8: TyId(0),
        ty_u16: TyId(1),
        ty_u32: TyId(2),
        ty_u64: TyId(3),
        ty_s8: TyId(4),
        ty_s16: TyId(5),
        ty_s32: TyId(6),
        ty_s64: TyId(7),
        ty_void: TyId(8),
    })
    &&& syms == seq![
        GlobalEntry { kind: SymbolKind::Ty, name: id_u8, state: SymbolState::Resolved(TyId(0)) },
        GlobalEntry { kind: SymbolKind::Ty, name: id_u16, state: SymbolState::Resolved(TyId(1)) },
        GlobalEntry { kind: SymbolKind::Ty, name: id_u32, state: SymbolState::Resolved(TyId(2)) },
        GlobalEntry { kind: SymbolKind::Ty, name: id_u64, state: SymbolState::Resolved(TyId(3)) },
        GlobalEntry { kind: SymbolKind::Ty, name: id_s8, state: SymbolState::Resolved(TyId(4)) },
        GlobalEntry { kind: SymbolKind::Ty, name: id_s16, state: SymbolState::Resolved(TyId(5)) },
        GlobalEntry { kind: SymbolKind::Ty, name: id_s32, state: SymbolState::Resolved(TyId(6)) },
        GlobalEntry { kind: SymbolKind::Ty, name: id_s64, state: SymbolState::Resolved(TyId(7)) },
        GlobalEntry { kind: SymbolKind::Ty, name: id_void, state: SymbolState::Resolved(TyId(8)) },
    ]
}

proof fn lemma_pending_count_zero(syms: Seq<GlobalEntry>)
    requires
        forall|i: int| 0 <= i < syms.len() ==> !((#[trigger] syms[i]).state is Unresolved),
    ensures
        pending_count(syms) == 0,
    decreases syms.len(),
{
    if syms.len() > 0 {
        lemma_pending_count_zero(syms.drop_last());
    }
}

impl TyResolver {
    /// Seed a fresh resolver: pre-register the builtin primitive types as
    /// resolved global type symbols before any user declaration is seen.
    pub fn new(parser_context: &mut parser::Context) -> (r: TyResolver)
        requires
            parser::distinct_idents(old(parser_context)@),
        ensures
            resolver_wf(r),
            parser::distinct_idents(final(parser_context)@),
            builtin_env(
                old(parser_context)@,
                final(parser_context)@,
                r.ty_context@,
                r.symbols@,
                r.builtin_types,
            ),
            r.alias_defs@.len() == 0,
            r.struct_defs@.len() == 0,
            pending_count(r.symbols@) == 0,
    {
        let mut ty_context = ty::Context::new();
        let (symbols, builtin_types) = Self::create_types_map(&mut ty_context, parser_context);
        let r = TyResolver {
            ty_context,
            builtin_types,
            symbols,
            alias_defs: Vec::new(),
            struct_defs: Vec::new(),
        };
        proof {
            lemma_pending_count_zero(r.symbols@);
        }
        r
    }

    /// Intern the nine builtin type names and descriptors and build their
    /// resolved global symbols.
    pub fn create_types_map(
        ty_context: &mut ty::Context,
        parser_context: &mut parser::Context,
    ) -> (r: (Vec<GlobalEntry>, BuiltinTypes))
        requires
            old(ty_context)@.len() == 0,
            parser::distinct_idents(old(parser_context)@),
        ensures
            parser::distinct_idents(final(parser_context)@),
            table_wf(final(ty_context)@),
            distinct_global_names(r.0@),
            builtin_env(
                old(parser_context)@,
                final(parser_context)@,
                final(ty_context)@,
                r.0@,
                r.1,
            ),
            forall|i: int|
                0 <= i < r.0@.len() ==> entry_valid(
                    #[trigger] r.0@[i],
                    final(ty_context)@.len() as int,
                    0,
                    0,
                ),
            builtins_wf(r.1, final(ty_context)@),
    {
        let mut symbols: Vec<GlobalEntry> = Vec::new();

        let n_u8 = parser_context.add_ident("u8");
        let ty_u8 = ty_context.add_type(Ty::integer(IntKind::U8));
        symbols.push(GlobalEntry { kind: SymbolKind::Ty, name: n_u8, state: SymbolState::Resolved(ty_u8) });

        let n_u16 = parser_context.add_ident("u16");
        let ty_u16 = ty_context.add_type(Ty::integer(IntKind::U16));
        symbols.push(GlobalEntry { kind: SymbolKind::Ty, name: n_u16, state: SymbolState::Resolved(ty_u16) });

        let n_u32 = parser_context.add_ident("u32");
        let ty_u32 = ty_context.add_type(Ty::integer(IntKind::U32));
        symbols.push(GlobalEntry { kind: SymbolKind::Ty, name: n_u32, state: SymbolState::Resolved(ty_u32) });

        let n_u64 = parser_context.add_ident("u64");
        let ty_u64 = ty_context.add_type(Ty::integer(IntKind::U64));
        symbols.push(GlobalEntry { kind: SymbolKind::Ty, name: n_u64, state: SymbolState::Resolved(ty_u64) });

        let n_s8 = parser_context.add_ident("s8");
        let ty_s8 = ty_context.add_type(Ty::integer(IntKind::S8));
        symbols.push(GlobalEntry { kind: SymbolKind::Ty, name: n_s8, state: SymbolState::Resolved(ty_s8) });

        let n_s16 = parser_context.add_ident("s16");
        let ty_s16 = ty_context.add_type(Ty::integer(IntKind::S16));
        symbols.push(GlobalEntry { kind: SymbolKind::Ty, name: n_s16, state: SymbolState::Resolved(ty_s16) });

        let n_s32 = parser_context.add_ident("s32");
        let ty_s32 = ty_context.add_type(Ty::integer(IntKind::S32));
        symbols.push(GlobalEntry { kind: SymbolKind::Ty, name: n_s32, state: SymbolState::Resolved(ty_s32) });

        let n_s64 = parser_context.add_ident("s64");
        let ty_s64 = ty_context.add_type(Ty::integer(IntKind::S64));
        symbols.push(GlobalEntry { kind: SymbolKind::Ty, name: n_s64, state: SymbolState::Resolved(ty_s64) });

        let n_void = parser_context.add_ident("void");
        let ty_void = ty_context.add_type(Ty::void());
        symbols.push(GlobalEntry { kind: SymbolKind::Ty, name: n_void, state: SymbolState::Resolved(ty_void) });

        let builtin_types = BuiltinTypes {
            ty_u8,
            ty_u16,
            ty_u32,
            ty_u64,
            ty_s8,
            ty_s16,
            ty_s32,
            ty_s64,
            ty_void,
        };

        proof {
            reveal_strlit("u8");
            reveal_strlit("u16");
            reveal_strlit("u32");
            reveal_strlit("u64");
            reveal_strlit("s8");
            reveal_strlit("s16");
            reveal_strlit("s32");
            reveal_strlit("s64");
            reveal_strlit("void");
            let t0 = old(parser_context)@;
            let t1 = parser::intern_ident_table(t0, "u8"@);
            let t2 = parser::intern_ident_table(t1, "u16"@);
            let t3 = parser::intern_ident_table(t2, "u32"@);
            let t4 = parser::intern_ident_table(t3, "u64"@);
            let t5 = parser::intern_ident_table(t4, "s8"@);
            let t6 = parser::intern_ident_table(t5, "s16"@);
            let t7 = parser::intern_ident_table(t6, "s32"@);
            let t8 = parser::intern_ident_table(t7, "s64"@);
            let t9 = parser::intern_ident_table(t8, "void"@);
            assert(n_u8.0 < t1.len() && t1[n_u8.0 as int] == "u8"@);
            assert(n_u8.0 < t2.len() && t2[n_u8.0 as int] == "u8"@ && n_u16.0 < t2.len()
                && t2[n_u16.0 as int] == "u16"@);
            assert(n_u8.0 < t3.len() && t3[n_u8.0 as int] == "u8"@ && n_u16.0 < t3.len()
                && t3[n_u16.0 as int] == "u16"@ && n_u32.0 < t3.len() && t3[n_u32.0 as int]
                == "u32"@);
            assert(n_u8.0 < t4.len() && t4[n_u8.0 as int] == "u8"@ && n_u16.0 < t4.len()
                && t4[n_u16.0 as int] == "u16"@ && n_u32.0 < t4.len() && t4[n_u32.0 as int]
                == "u32"@ && n_u64.0 < t4.len() && t4[n_u64.0 as int] == "u64"@);
            assert(n_u8.0 < t5.len() && t5[n_u8.0 as int] == "u8"@ && n_u16.0 < t5.len()
                && t5[n_u16.0 as int] == "u16"@ && n_u32.0 < t5.len() && t5[n_u32.0 as int]
                == "u32"@ && n_u64.0 < t5.len() && t5[n_u64.0 as int] == "u64"@ && n_s8.0
                < t5.len() && t5[n_s8.0 as int] == "s8"@);
            assert(n_u8.0 < t6.len() && t6[n_u8.0 as int] == "u8"@ && n_u16.0 < t6.len()
                && t6[n_u16.0 as int] == "u16"@ && n_u32.0 < t6.len() && t6[n_u32.0 as int]
                == "u32"@ && n_u64.0 < t6.len() && t6[n_u64.0 as int] == "u64"@ && n_s8.0
                < t6.len() && t6[n_s8.0 as int] == "s8"@ && n_s16.0 < t6.len() && t6[n_s16.0
                as int] == "s16"@);
            assert(n_u8.0 < t7.len() && t7[n_u8.0 as int] == "u8"@ && n_u16.0 < t7.len()
                && t7[n_u16.0 as int] == "u16"@ && n_u32.0 < t7.len() && t7[n_u32.0 as int]
                == "u32"@ && n_u64.0 < t7.len() && t7[n_u64.0 as int] == "u64"@ && n_s8.0
                < t7.len() && t7[n_s8.0 as int] == "s8"@ && n_s16.0 < t7.len() && t7[n_s16.0
                as int] == "s16"@ && n_s32.0 < t7.len() && t7[n_s32.0 as int] == "s32"@);
            assert(n_u8.0 < t8.len() && t8[n_u8.0 as int] == "u8"@ && n_u16.0 < t8.len()
                && t8[n_u16.0 as int] == "u16"@ && n_u32.0 < t8.len() && t8[n_u32.0 as int]
                == "u32"@ && n_u64.0 < t8.len() && t8[n_u64.0 as int] == "u64"@ && n_s8.0
                < t8.len() && t8[n_s8.0 as int] == "s8"@ && n_s16.0 < t8.len() && t8[n_s16.0
                as int] == "s16"@ && n_s32.0 < t8.len() && t8[n_s32.0 as int] == "s32"@
                && n_s64.0 < t8.len() && t8[n_s64.0 as int] == "s64"@);
            assert(n_u8.0 < t9.len() && t9[n_u8.0 as int] == "u8"@ && n_u16.0 < t9.len()
                && t9[n_u16.0 as int] == "u16"@ && n_u32.0 < t9.len() && t9[n_u32.0 as int]
                == "u32"@ && n_u64.0 < t9.len() && t9[n_u64.0 as int] == "u64"@ && n_s8.0
                < t9.len() && t9[n_s8.0 as int] == "s8"@ && n_s16.0 < t9.len() && t9[n_s16.0
                as int] == "s16"@ && n_s32.0 < t9.len() && t9[n_s32.0 as int] == "s32"@
                && n_s64.0 < t9.len() && t9[n_s64.0 as int] == "s64"@ && n_void.0 < t9.len()
                && t9[n_void.0 as int] == "void"@);
            assert(symbols@[0].name == n_u8 && symbols@[1].name == n_u16 && symbols@[2].name == n_u32 && symbols@[3].name == n_u64 && symbols@[4].name == n_s8 && symbols@[5].name == n_s16 && symbols@[6].name == n_s32 && symbols@[7].name == n_s64 && symbols@[8].name == n_void);
            assert("u8"@[0] == 'u');
            assert("u8"@[1] == '8');
            assert("u16"@[0] == 'u');
            assert("u16"@[1] == '1');
            assert("u16"@[2] == '6');
            assert("u32"@[0] == 'u');
            assert("u32"@[1] == '3');
            assert("u32"@[2] == '2');
            assert("u64"@[0] == 'u');
            assert("u64"@[1] == '6');
            assert("u64"@[2] == '4');
            assert("s8"@[0] == 's');
            assert("s8"@[1] == '8');
            assert("s16"@[0] == 's');
            assert("s16"@[1] == '1');
            assert("s16"@[2] == '6');
            assert("s32"@[0] == 's');
            assert("s32"@[1] == '3');
            assert("s32"@[2] == '2');
            assert("s64"@[0] == 's');
            assert("s64"@[1] == '6');
            assert("s64"@[2] == '4');
            assert("void"@[0] == 'v');
            assert("void"@[1] == 'o');
            assert("void"@[2] == 'i');
            assert("void"@[3] == 'd');
            assert("u8"@ != "u16"@);
            assert("u8"@ != "u32"@);
            assert("u8"@ != "u64"@);
            assert("u8"@ != "s8"@);
            assert("u8"@ != "s16"@);
            assert("u8"@ != "s32"@);
            assert("u8"@ != "s64"@);
            assert("u8"@ != "void"@);
            assert("u16"@ != "u32"@);
            assert("u16"@ != "u64"@);
            assert("u16"@ != "s8"@);
            assert("u16"@ != "s16"@);
            assert("u16"@ != "s32"@);
            assert("u16"@ != "s64"@);
            assert("u16"@ != "void"@);
            assert("u32"@ != "u64"@);
            assert("u32"@ != "s8"@);
            assert("u32"@ != "s16"@);
            assert("u32"@ != "s32"@);
            assert("u32"@ != "s64"@);
            assert("u32"@ != "void"@);
            assert("u64"@ != "s8"@);
            assert("u64"@ != "s16"@);
            assert("u64"@ != "s32"@);
            assert("u64"@ != "s64"@);
            assert("u64"@ != "void"@);
            assert("s8"@ != "s16"@);
            assert("s8"@ != "s32"@);
            assert("s8"@ != "s64"@);
            assert("s8"@ != "void"@);
            assert("s16"@ != "s32"@);
            assert("s16"@ != "s64"@);
            assert("s16"@ != "void"@);
            assert("s32"@ != "s64"@);
            assert("s32"@ != "void"@);
            assert("s64"@ != "void"@);
            assert(n_u8 != n_u16 && n_u8 != n_u32 && n_u8 != n_u64 && n_u8 != n_s8 && n_u8 != n_s16 && n_u8 != n_s32 && n_u8 != n_s64 && n_u8 != n_void && n_u16 != n_u32 && n_u16 != n_u64 && n_u16 != n_s8 && n_u16 != n_s16 && n_u16 != n_s32 && n_u16 != n_s64 && n_u16 != n_void && n_u32 != n_u64 && n_u32 != n_s8 && n_u32 != n_s16 && n_u32 != n_s32 && n_u32 != n_s64 && n_u32 != n_void && n_u64 != n_s8 && n_u64 != n_s16 && n_u64 != n_s32 && n_u64 != n_s64 && n_u64 != n_void && n_s8 != n_s16 && n_s8 != n_s32 && n_s8 != n_s64 && n_s8 != n_void && n_s16 != n_s32 && n_s16 != n_s64 && n_s16 != n_void && n_s32 != n_s64 && n_s32 != n_void && n_s64 != n_void);
            assert(distinct_global_names(symbols@));
            assert(symbols@ =~= seq![
                GlobalEntry { kind: SymbolKind::Ty, name: n_u8, state: SymbolState::Resolved(ty_u8) },
                GlobalEntry { kind: SymbolKind::Ty, name: n_u16, state: SymbolState::Resolved(ty_u16) },
                GlobalEntry { kind: SymbolKind::Ty, name: n_u32, state: SymbolState::Resolved(ty_u32) },
                GlobalEntry { kind: SymbolKind::Ty, name: n_u64, state: SymbolState::Resolved(ty_u64) },
                GlobalEntry { kind: SymbolKind::Ty, name: n_s8, state: SymbolState::Resolved(ty_s8) },
                GlobalEntry { kind: SymbolKind::Ty, name: n_s16, state: SymbolState::Resolved(ty_s16) },
                GlobalEntry { kind: SymbolKind::Ty, name: n_s32, state: SymbolState::Resolved(ty_s32) },
                GlobalEntry { kind: SymbolKind::Ty, name: n_s64, state: SymbolState::Resolved(ty_s64) },
                GlobalEntry { kind: SymbolKind::Ty, name: n_void, state: SymbolState::Resolved(ty_void) },
            ]);
            assert(final(ty_context)@ =~= builtin_descriptors());
        }

        (symbols, builtin_types)
    }
}


impl TyResolver {
    /// Index of the global symbol with the given name, if any.
    #[verifier::loop_isolation(false)]
    fn find_global_index(&self, name: Ident) -> (r: Option<usize>)
        requires
            distinct_global_names(self.symbols@),
        ensures
            match r {
                Some(i) => i < self.symbols@.len() && self.symbols@[i as int].name == name
                    && globals_lookup(self.symbols@, name) == Some(self.symbols@[i as int]),
                None => globals_lookup(self.symbols@, name) is None,
            },
    {
        let n = self.symbols.len();
        let mut i: usize = 0;
        while i < n
            invariant
                i <= n,
                forall|k: int| 0 <= k < i ==> (#[trigger] self.symbols@[k]).name != name,
            decreases n - i,
        {
            if self.symbols[i].name == name {
                proof {
                    lemma_globals_lookup_at(self.symbols@, name, i as int);
                }
                return Some(i);
            }
            i += 1;
        }
        proof {
            lemma_globals_lookup_none(self.symbols@, name);
        }
        None
    }

    /// Overwrite the state of global symbol `i`, keeping its name and kind.
    fn set_entry_state(&mut self, i: usize, st: SymbolState)
        requires
            i < old(self).symbols@.len(),
        ensures
            final(self).symbols@ == old(self).symbols@.update(
                i as int,
                GlobalEntry {
                    kind: old(self).symbols@[i as int].kind,
                    name: old(self).symbols@[i as int].name,
                    state: st,
                },
            ),
            final(self).ty_context == old(self).ty_context,
            same_defs(*final(self), *old(self)),
    {
        let e = self.symbols[i];
        self.symbols.set(i, GlobalEntry { kind: e.kind, name: e.name, state: st });
    }

    /// Register an already-resolved global symbol; fails when the name is
    /// already taken (types and functions share one namespace).
    pub fn add_symbol(&mut self, symbol: Symbol) -> (r: Result<(), ResolveError>)
        requires
            resolver_wf(*old(self)),
            symbol.ty.0 < old(self).ty_context@.len(),
        ensures
            resolver_wf(*final(self)),
            final(self).ty_context == old(self).ty_context,
            same_defs(*final(self), *old(self)),
            globals_lookup(old(self).symbols@, symbol.name) is Some ==> r == Err::<(),
            ResolveError>(ResolveError::DuplicateDefinition) && final(self).symbols@ == old(
                self,
            ).symbols@,
            globals_lookup(old(self).symbols@, symbol.name) is None ==> r == Ok::<(),
            ResolveError>(()) && final(self).symbols@ == old(self).symbols@.push(
                GlobalEntry {
                    kind: symbol.kind,
                    name: symbol.name,
                    state: SymbolState::Resolved(symbol.ty),
                },
            ),
            pending_count(final(self).symbols@) == pending_count(old(self).symbols@),
    {
        if let Some(_) = self.find_global_index(symbol.name) {
            Err(ResolveError::DuplicateDefinition)
        } else {
            let e = GlobalEntry {
                kind: symbol.kind,
                name: symbol.name,
                state: SymbolState::Resolved(symbol.ty),
            };
            self.symbols.push(e);
            proof {
                lemma_pending_count_push(old(self).symbols@, e);
                assert forall|i: int, j: int|
                    0 <= i < self.symbols@.len() && 0 <= j < self.symbols@.len() && i != j implies (
                #[trigger] self.symbols@[i]).name != (#[trigger] self.symbols@[j]).name by {
                    if j == self.symbols@.len() - 1 && i < j {
                        if self.symbols@[i].name == symbol.name {
                            lemma_globals_lookup_at(old(self).symbols@, symbol.name, i);
                        }
                    } else if i == self.symbols@.len() - 1 && j < i {
                        if self.symbols@[j].name == symbol.name {
                            lemma_globals_lookup_at(old(self).symbols@, symbol.name, j);
                        }
                    }
                }
            }
            Ok(())
        }
    }

    /// Register a global type alias `name = typespec`, to be resolved lazily
    /// on first use; fails when the name is already taken.
    pub fn add_type_alias(&mut self, name: Ident, typespec: P<Typespec>) -> (r: Result<
        (),
        ResolveError,
    >)
        requires
            resolver_wf(*old(self)),
        ensures
            resolver_wf(*final(self)),
            final(self).ty_context == old(self).ty_context,
            final(self).builtin_types == old(self).builtin_types,
            final(self).struct_defs@ == old(self).struct_defs@,
            globals_lookup(old(self).symbols@, name) is Some ==> r == Err::<(), ResolveError>(
                ResolveError::DuplicateDefinition,
            ) && final(self).symbols@ == old(self).symbols@ && final(self).alias_defs@ == old(
                self,
            ).alias_defs@,
            globals_lookup(old(self).symbols@, name) is None ==> r == Ok::<(), ResolveError>(())
                && final(self).symbols@ == old(self).symbols@.push(
                GlobalEntry {
                    kind: SymbolKind::Ty,
                    name,
                    state: SymbolState::Unresolved(TypeDef::Alias(old(self).alias_defs@.len() as usize)),
                },
            ) && final(self).alias_defs@ == old(self).alias_defs@.push(typespec),
    {
        if let Some(_) = self.find_global_index(name) {
            Err(ResolveError::DuplicateDefinition)
        } else {
            let k = self.alias_defs.len();
            let e = GlobalEntry {
                kind: SymbolKind::Ty,
                name,
                state: SymbolState::Unresolved(TypeDef::Alias(k)),
            };
            self.alias_defs.push(typespec);
            self.symbols.push(e);
            proof {
                assert forall|i: int, j: int|
                    0 <= i < self.symbols@.len() && 0 <= j < self.symbols@.len() && i != j implies (
                #[trigger] self.symbols@[i]).name != (#[trigger] self.symbols@[j]).name by {
                    if j == self.symbols@.len() - 1 && i < j {
                        if self.symbols@[i].name == name {
                            lemma_globals_lookup_at(old(self).symbols@, name, i);
                        }
                    } else if i == self.symbols@.len() - 1 && j < i {
                        if self.symbols@[j].name == name {
                            lemma_globals_lookup_at(old(self).symbols@, name, j);
                        }
                    }
                }
            }
            Ok(())
        }
    }

    /// Register a global struct declaration with named, typed fields, to be
    /// resolved lazily on first use; fails when the name is already taken.
    pub fn add_struct_decl(&mut self, name: Ident, fields: Vec<StructFieldDecl>) -> (r: Result<
        (),
        ResolveError,
    >)
        requires
            resolver_wf(*old(self)),
        ensures
            resolver_wf(*final(self)),
            final(self).ty_context == old(self).ty_context,
            final(self).builtin_types == old(self).builtin_types,
            final(self).alias_defs@ == old(self).alias_defs@,
            globals_lookup(old(self).symbols@, name) is Some ==> r == Err::<(), ResolveError>(
                ResolveError::DuplicateDefinition,
            ) && final(self).symbols@ == old(self).symbols@ && final(self).struct_defs@ == old(
                self,
            ).struct_defs@,
            globals_lookup(old(self).symbols@, name) is None ==> r == Ok::<(), ResolveError>(())
                && final(self).symbols@ == old(self).symbols@.push(
                GlobalEntry {
                    kind: SymbolKind::Ty,
                    name,
                    state: SymbolState::Unresolved(
                        TypeDef::StructDecl(old(self).struct_defs@.len() as usize),
                    ),
                },
            ) && final(self).struct_defs@ == old(self).struct_defs@.push(fields),
    {
        if let Some(_) = self.find_global_index(name) {
            Err(ResolveError::DuplicateDefinition)
        } else {
            let k = self.struct_defs.len();
            let e = GlobalEntry {
                kind: SymbolKind::Ty,
                name,
                state: SymbolState::Unresolved(TypeDef::StructDecl(k)),
            };
            self.struct_defs.push(fields);
            self.symbols.push(e);
            proof {
                assert forall|i: int, j: int|
                    0 <= i < self.symbols@.len() && 0 <= j < self.symbols@.len() && i != j implies (
                #[trigger] self.symbols@[i]).name != (#[trigger] self.symbols@[j]).name by {
                    if j == self.symbols@.len() - 1 && i < j {
                        if self.symbols@[i].name == name {
                            lemma_globals_lookup_at(old(self).symbols@, name, i);
                        }
                    } else if i == self.symbols@.len() - 1 && j < i {
                        if self.symbols@[j].name == name {
                            lemma_globals_lookup_at(old(self).symbols@, name, j);
                        }
                    }
                }
            }
            Ok(())
        }
    }

    /// The handle a named global symbol currently stands for, if any.
    pub fn symbol_ty(&self, name: Ident) -> (r: Option<TyId>)
        requires
            distinct_global_names(self.symbols@),
        ensures
            r == (match globals_lookup(self.symbols@, name) {
                Some(e) => sym_handle(e),
                None => None::<TyId>,
            }),
    {
        match self.find_global_index(name) {
            Some(i) => match self.symbols[i].state {
                SymbolState::Resolved(t) => Some(t),
                SymbolState::Resolving(ph) => ph,
                SymbolState::Unresolved(_) => None,
            },
            None => None,
        }
    }
}

/// Lookup walking the local scope from the most recent symbol backwards,
/// falling back to the globals; a global still unresolved is not visible.
pub open spec fn sp_find_symbol(
    locals: Seq<Symbol>,
    syms: Seq<GlobalEntry>,
    name: Ident,
) -> Option<Symbol> {
    match scope_lookup(locals, name) {
        Some(s) => Some(s),
        None => match globals_lookup(syms, name) {
            Some(e) => match e.state {
                SymbolState::Resolved(t) => Some(Symbol { kind: e.kind, name: e.name, ty: t }),
                _ => None,
            },
            None => None,
        },
    }
}

impl TyResolver {
    /// Find a symbol: locals first (most recent shadows), then resolved
    /// globals.
    pub fn find_symbol(&self, scope: &Scope, name: Ident) -> (r: Option<Symbol>)
        requires
            distinct_global_names(self.symbols@),
        ensures
            r == sp_find_symbol(scope@, self.symbols@, name),
    {
        if let Some(sym) = scope.find_symbol(name) {
            return Some(*sym);
        }

        if let Some(i) = self.find_global_index(name) {
            let e = self.symbols[i];
            if let SymbolState::Resolved(t) = e.state {
                return Some(Symbol { kind: e.kind, name: e.name, ty: t });
            }
        }

        None
    }

    pub fn u8(&self) -> (r: TyId)
        ensures
            r == self.builtin_types.ty_u8,
    {
        self.builtin_types.ty_u8
    }

    pub fn u16(&self) -> (r: TyId)
        ensures
            r == self.builtin_types.ty_u16,
    {
        self.builtin_types.ty_u16
    }

    pub fn u32(&self) -> (r: TyId)
        ensures
            r == self.builtin_types.ty_u32,
    {
        self.builtin_types.ty_u32
    }

    pub fn u64(&self) -> (r: TyId)
        ensures
            r == self.builtin_types.ty_u64,
    {
        self.builtin_types.ty_u64
    }

    pub fn s8(&self) -> (r: TyId)
        ensures
            r == self.builtin_types.ty_s8,
    {
        self.builtin_types.ty_s8
    }

    pub fn s16(&self) -> (r: TyId)
        ensures
            r == self.builtin_types.ty_s16,
    {
        self.builtin_types.ty_s16
    }

    pub fn s32(&self) -> (r: TyId)
        ensures
            r == self.builtin_types.ty_s32,
    {
        self.builtin_types.ty_s32
    }

    pub fn s64(&self) -> (r: TyId)
        ensures
            r == self.builtin_types.ty_s64,
    {
        self.builtin_types.ty_s64
    }

    pub fn void(&self) -> (r: TyId)
        ensures
            r == self.builtin_types.ty_void,
    {
        self.builtin_types.ty_void
    }
}


// ------------------------------------------------------------------
// Typespec resolution
// ------------------------------------------------------------------

/// Every global symbol is fully resolved (the state in which function bodies
/// are checked).
pub open spec fn fully_resolved(syms: Seq<GlobalEntry>) -> bool {
    forall|i: int| 0 <= i < syms.len() ==> (#[trigger] syms[i]).state is Resolved
}

/// Pure model of typespec resolution over a fully resolved symbol table:
/// a name yields its symbol's handle (or the matching error), and a pointer
/// resolves its inner type and then interns a pointer descriptor over it.
pub open spec fn sp_resolve_typespec(
    tt: Seq<Ty>,
    syms: Seq<GlobalEntry>,
    ts: Typespec,
) -> (Seq<Ty>, Result<TyId, ResolveError>)
    decreases ts,
{
    match ts.kind {
        TypespecKind::Name(id) => match globals_lookup(syms, id) {
            None => (tt, Err(ResolveError::UnknownSymbol)),
            Some(e) => if e.kind != SymbolKind::Ty {
                (tt, Err(ResolveError::NotAType))
            } else {
                match e.state {
                    SymbolState::Resolved(t) => (tt, Ok(t)),
                    _ => (tt, Err(ResolveError::CyclicDefinition)),
                }
            },
        },
        TypespecKind::Ptr(inner) => {
            let r1 = sp_resolve_typespec(tt, syms, *inner.ptr);
            match r1.1 {
                Ok(b) => (
                    intern_ty_table(r1.0, Ty { kind: TyKind::Ptr(b) }),
                    Ok(TyId(intern_ty_id(r1.0, Ty { kind: TyKind::Ptr(b) }) as usize)),
                ),
                Err(e) => (r1.0, Err(e)),
            }
        },
    }
}

/// Deep copy of a syntactic type reference, used to detach a stored type
/// definition from the resolver before resolving it.
fn copy_typespec(ts: &Typespec) -> (r: P<Typespec>)
    ensures
        r@ == *ts,
    decreases *ts,
{
    let span = *ts.span();
    match ts.kind() {
        TypespecKind::Name(id) => Typespec::name(span, *id),
        TypespecKind::Ptr(base) => {
            let inner = copy_typespec(base.get());
            let r = Typespec::ptr(span, inner);
            proof {
                assert(inner == *base);
            }
            r
        },
    }
}

impl TyResolver {
    /// Resolve a written type to a handle. A name resolves through its
    /// global symbol, lazily resolving an alias or struct declaration on
    /// first use; meeting a symbol already being resolved is the
    /// cyclic-definition error. A pointer resolves its inner type and interns
    /// a pointer descriptor over it; as the one exception, a pointer to a
    /// name whose struct declaration is still being resolved uses that
    /// declaration's placeholder handle, which is how a pointer breaks a
    /// definition cycle.
    #[verifier::loop_isolation(false)]
    #[verifier::rlimit(100)]
    pub fn resolve_typespec(&mut self, typespec: &P<Typespec>) -> (r: Result<TyId, ResolveError>)
        requires
            resolver_wf(*old(self)),
        ensures
            resolver_wf(*final(self)),
            same_defs(*final(self), *old(self)),
            tt_extends(final(self).ty_context@, old(self).ty_context@),
            syms_advance(final(self).symbols@, old(self).symbols@),
            pending_count(final(self).symbols@) <= pending_count(old(self).symbols@),
            r matches Ok(t) ==> t.0 < final(self).ty_context@.len() && ts_denotes(
                final(self).ty_context@,
                final(self).symbols@,
                typespec@,
                t,
            ),
            forall|t: TyId|
                ts_resolved_to(old(self).ty_context@, old(self).symbols@, typespec@, t) ==> r
                    == Ok::<TyId, ResolveError>(t) && final(self).ty_context@ == old(
                    self,
                ).ty_context@ && final(self).symbols@ == old(self).symbols@,
            r is Ok ==> forall|i: int|
                0 <= i < old(self).symbols@.len() ==> ((#[trigger] old(self).symbols@[i]).state
                    is Resolving <==> final(self).symbols@[i].state is Resolving),
            r matches Err(e) ==> (e == ResolveError::UnknownSymbol || e == ResolveError::NotAType
                || e == ResolveError::CyclicDefinition),
            fully_resolved(old(self).symbols@) ==> final(self).symbols@ == old(self).symbols@ && (
            final(self).ty_context@, r) == sp_resolve_typespec(
                old(self).ty_context@,
                old(self).symbols@,
                typespec@,
            ),
        decreases pending_count(self.symbols@), *typespec.ptr,
    {
        match typespec.get().kind() {
            TypespecKind::Name(ident) => {
                let name = *ident;
                match self.find_global_index(name) {
                    None => {
                        proof {
                            assert forall|t2: TyId|
                                !ts_resolved_to(
                                    old(self).ty_context@,
                                    old(self).symbols@,
                                    typespec@,
                                    t2,
                                ) by {}
                        }
                        Err(ResolveError::UnknownSymbol)
                    },
                    Some(i) => {
                        let e = self.symbols[i];
                        proof {
                            assert(entry_valid(
                                e,
                                self.ty_context@.len() as int,
                                self.alias_defs@.len() as int,
                                self.struct_defs@.len() as int,
                            ));
                        }
                        if e.kind != SymbolKind::Ty {
                            proof {
                                assert forall|t2: TyId|
                                    !ts_resolved_to(
                                        old(self).ty_context@,
                                        old(self).symbols@,
                                        typespec@,
                                        t2,
                                    ) by {}
                            }
                            return Err(ResolveError::NotAType);
                        }
                        match e.state {
                            SymbolState::Resolved(t) => {
                                proof {
                                    assert forall|t2: TyId|
                                        ts_resolved_to(
                                            old(self).ty_context@,
                                            old(self).symbols@,
                                            typespec@,
                                            t2,
                                        ) implies t2 == t by {}
                                }
                                Ok(t)
                            },
                            SymbolState::Resolving(_) => {
                                proof {
                                    assert forall|t2: TyId|
                                        !ts_resolved_to(
                                            old(self).ty_context@,
                                            old(self).symbols@,
                                            typespec@,
                                            t2,
                                        ) by {}
                                }
                                Err(ResolveError::CyclicDefinition)
                            },
                            SymbolState::Unresolved(TypeDef::Alias(k)) => {
                                proof {
                                    assert(!fully_resolved(old(self).symbols@));
                                }
                                let ts_copy = copy_typespec(self.alias_defs[k].get());
                                self.set_entry_state(i, SymbolState::Resolving(None));
                                let ghost st1 = *self;
                                proof {
                                    lemma_pending_count_update(
                                        old(self).symbols@,
                                        i as int,
                                        st1.symbols@[i as int],
                                    );
                                    lemma_wf_after_state_update(*old(self), st1, i as int);
                                }
                                match self.resolve_typespec(&ts_copy) {
                                    Ok(t) => {
                                        let ghost st2 = *self;
                                        self.set_entry_state(i, SymbolState::Resolved(t));
                                        proof {
                                            lemma_pending_count_update(
                                                st2.symbols@,
                                                i as int,
                                                self.symbols@[i as int],
                                            );
                                            lemma_wf_after_state_update(st2, *self, i as int);
                                            lemma_globals_lookup_update(
                                                st2.symbols@,
                                                i as int,
                                                self.symbols@[i as int],
                                                name,
                                            );
                                            assert(syms_advance(st1.symbols@, old(self).symbols@));
                                            assert(syms_advance(self.symbols@, st2.symbols@));
                                            lemma_syms_advance_trans(
                                                st2.symbols@,
                                                st1.symbols@,
                                                old(self).symbols@,
                                            );
                                            lemma_syms_advance_trans(
                                                self.symbols@,
                                                st2.symbols@,
                                                old(self).symbols@,
                                            );
                                            assert(entry_advances(
                                                st1.symbols@[i as int],
                                                st2.symbols@[i as int],
                                            ));
                                            assert(self.symbols@[i as int].name == name);
                                            assert(self.symbols@[i as int].kind == SymbolKind::Ty);
                                            lemma_globals_lookup_at(self.symbols@, name, i as int);
                                            assert(ts_denotes(
                                                self.ty_context@,
                                                self.symbols@,
                                                typespec@,
                                                t,
                                            ));
                                            assert forall|ii: int|
                                                0 <= ii < old(self).symbols@.len() implies ((
                                            #[trigger] old(self).symbols@[ii]).state is Resolving
                                                <==> self.symbols@[ii].state is Resolving) by {
                                                if ii != i as int {
                                                    assert(st1.symbols@[ii].state is Resolving
                                                        <==> st2.symbols@[ii].state is Resolving);
                                                }
                                            }
                                            assert forall|t2: TyId|
                                                !ts_resolved_to(
                                                    old(self).ty_context@,
                                                    old(self).symbols@,
                                                    typespec@,
                                                    t2,
                                                ) by {}
                                        }
                                        Ok(t)
                                    },
                                    Err(err) => {
                                        proof {
                                            assert(syms_advance(st1.symbols@, old(self).symbols@));
                                            lemma_syms_advance_trans(
                                                self.symbols@,
                                                st1.symbols@,
                                                old(self).symbols@,
                                            );
                                            assert forall|t2: TyId|
                                                !ts_resolved_to(
                                                    old(self).ty_context@,
                                                    old(self).symbols@,
                                                    typespec@,
                                                    t2,
                                                ) by {}
                                        }
                                        Err(err)
                                    },
                                }
                            },
                            SymbolState::Unresolved(TypeDef::StructDecl(k)) => {
                                proof {
                                    assert(!fully_resolved(old(self).symbols@));
                                }
                                let h = self.ty_context.add_type(Ty::struct_ty(Vec::new()));
                                let ghost st0 = *self;
                                self.set_entry_state(i, SymbolState::Resolving(Some(h)));
                                let ghost st1 = *self;
                                proof {
                                    lemma_pending_count_update(
                                        st0.symbols@,
                                        i as int,
                                        st1.symbols@[i as int],
                                    );
                                    lemma_wf_after_state_update(st0, st1, i as int);
                                    assert(syms_advance(st1.symbols@, old(self).symbols@));
                                }
                                let n = self.struct_defs[k].len();
                                let mut resolved_fields: Vec<StructField> = Vec::new();
                                let mut j: usize = 0;
                                while j < n
                                    invariant
                                        j <= n,
                                        resolver_wf(*self),
                                        same_defs(*self, *old(self)),
                                        n == self.struct_defs@[k as int].len(),
                                        k < self.struct_defs@.len(),
                                        tt_extends(self.ty_context@, st1.ty_context@),
                                        syms_advance(self.symbols@, st1.symbols@),
                                        pending_count(self.symbols@) <= pending_count(
                                            st1.symbols@,
                                        ),
                                        i < self.symbols@.len(),
                                        self.symbols@[i as int].state == SymbolState::Resolving(
                                            Some(h),
                                        ),
                                        h.0 < self.ty_context@.len(),
                                        self.ty_context@[h.0 as int].kind is Struct,
                                        forall|f: int|
                                            0 <= f < resolved_fields@.len() ==> (
                                            #[trigger] resolved_fields@[f]).ty.0
                                                < self.ty_context@.len(),
                                        forall|ii: int|
                                            0 <= ii < self.symbols@.len() && ii != i ==> ((
                                            #[trigger] self.symbols@[ii]).state is Resolving
                                                <==> st1.symbols@[ii].state is Resolving),
                                    decreases n - j,
                                {
                                    let fname = self.struct_defs[k][j].name;
                                    let fts = copy_typespec(self.struct_defs[k][j].typespec.get());
                                    let ghost before = *self;
                                    proof {
                                        assert(pending_count(self.symbols@) < pending_count(
                                            old(self).symbols@,
                                        ));
                                    }
                                    match self.resolve_typespec(&fts) {
                                        Ok(ft) => {
                                            resolved_fields.push(StructField::new(fname, ft));
                                            proof {
                                                lemma_tt_extends_trans(
                                                    self.ty_context@,
                                                    before.ty_context@,
                                                    st1.ty_context@,
                                                );
                                                lemma_syms_advance_trans(
                                                    self.symbols@,
                                                    before.symbols@,
                                                    st1.symbols@,
                                                );
                                                assert(entry_advances(
                                                    before.symbols@[i as int],
                                                    self.symbols@[i as int],
                                                ));
                                                assert(ty_entry_evolves(
                                                    before.ty_context@[h.0 as int],
                                                    self.ty_context@[h.0 as int],
                                                ));
                                                assert forall|ii: int|
                                                    0 <= ii < self.symbols@.len() && ii != i
                                                    implies ((
                                                #[trigger] self.symbols@[ii]).state is Resolving
                                                    <==> st1.symbols@[ii].state is Resolving) by {
                                                    assert((#[trigger] before.symbols@[ii]).state
                                                        is Resolving <==> self.symbols@[ii].state
                                                        is Resolving);
                                                }
                                            }
                                        },
                                        Err(err) => {
                                            proof {
                                                lemma_tt_extends_trans(
                                                    self.ty_context@,
                                                    before.ty_context@,
                                                    st1.ty_context@,
                                                );
                                                lemma_syms_advance_trans(
                                                    self.symbols@,
                                                    before.symbols@,
                                                    st1.symbols@,
                                                );
                                                lemma_tt_extends_trans(
                                                    self.ty_context@,
                                                    st1.ty_context@,
                                                    old(self).ty_context@,
                                                );
                                                lemma_syms_advance_trans(
                                                    self.symbols@,
                                                    st1.symbols@,
                                                    old(self).symbols@,
                                                );
                                                assert forall|t2: TyId|
                                                    !ts_resolved_to(
                                                        old(self).ty_context@,
                                                        old(self).symbols@,
                                                        typespec@,
                                                        t2,
                                                    ) by {}
                                            }
                                            return Err(err);
                                        },
                                    }
                                    j += 1;
                                }
                                self.ty_context.set_struct_fields(h, resolved_fields);
                                let ghost st2 = *self;
                                self.set_entry_state(i, SymbolState::Resolved(h));
                                proof {
                                    lemma_pending_count_update(
                                        st2.symbols@,
                                        i as int,
                                        self.symbols@[i as int],
                                    );
                                    lemma_wf_after_state_update(st2, *self, i as int);
                                    lemma_globals_lookup_update(
                                        st2.symbols@,
                                        i as int,
                                        self.symbols@[i as int],
                                        name,
                                    );
                                    lemma_syms_advance_trans(
                                        st2.symbols@,
                                        st1.symbols@,
                                        old(self).symbols@,
                                    );
                                    lemma_syms_advance_trans(
                                        self.symbols@,
                                        st2.symbols@,
                                        old(self).symbols@,
                                    );
                                    lemma_tt_extends_trans(
                                        self.ty_context@,
                                        st1.ty_context@,
                                        old(self).ty_context@,
                                    );
                                    assert(self.symbols@[i as int].name == name);
                                    assert(self.symbols@[i as int].kind == SymbolKind::Ty);
                                    lemma_globals_lookup_at(self.symbols@, name, i as int);
                                    assert(ts_denotes(
                                        self.ty_context@,
                                        self.symbols@,
                                        typespec@,
                                        h,
                                    ));
                                    assert forall|ii: int|
                                        0 <= ii < old(self).symbols@.len() implies ((
                                    #[trigger] old(self).symbols@[ii]).state is Resolving <==> self
                                        .symbols@[ii].state is Resolving) by {
                                        if ii != i as int {
                                            assert(st2.symbols@[ii].state is Resolving
                                                <==> st1.symbols@[ii].state is Resolving);
                                        }
                                    }
                                    assert forall|t2: TyId|
                                        !ts_resolved_to(
                                            old(self).ty_context@,
                                            old(self).symbols@,
                                            typespec@,
                                            t2,
                                        ) by {}
                                }
                                Ok(h)
                            },
                        }
                    },
                }
            },
            TypespecKind::Ptr(base) => {
                let mut placeholder: Option<TyId> = None;
                if let TypespecKind::Name(id) = base.get().kind() {
                    if let Some(i) = self.find_global_index(*id) {
                        let e = self.symbols[i];
                        if e.kind == SymbolKind::Ty {
                            if let SymbolState::Resolving(Some(h)) = e.state {
                                placeholder = Some(h);
                                proof {
                                    assert(!fully_resolved(old(self).symbols@));
                                    assert(sym_handle(e) == Some(h));
                                    assert(ts_denotes(
                                        self.ty_context@,
                                        self.symbols@,
                                        *base.ptr,
                                        h,
                                    ));
                                    assert forall|t: TyId|
                                        !ts_resolved_to(
                                            old(self).ty_context@,
                                            old(self).symbols@,
                                            typespec@,
                                            t,
                                        ) by {
                                        if ts_resolved_to(
                                            old(self).ty_context@,
                                            old(self).symbols@,
                                            typespec@,
                                            t,
                                        ) {
                                            let b = old(
                                                self,
                                            ).ty_context@[t.0 as int].kind->Ptr_0;
                                            assert(ts_resolved_to(
                                                old(self).ty_context@,
                                                old(self).symbols@,
                                                *base.ptr,
                                                b,
                                            ));
                                            assert(globals_lookup(old(self).symbols@, *id)
                                                == Some(old(self).symbols@[i as int]));
                                            assert(false);
                                        }
                                    }
                                }
                            }
                        }
                    }
                }
                if let Some(h) = placeholder {
                    let ghost mid = *self;
                    let ptr = self.ty_context.add_type(Ty::ptr(h));
                    proof {
                        assert(tt_extends(self.ty_context@, mid.ty_context@));
                        assert(same_ty(self.ty_context@[ptr.0 as int], Ty { kind: TyKind::Ptr(h) })
                            || self.ty_context@[ptr.0 as int] == (Ty { kind: TyKind::Ptr(h) }));
                        lemma_syms_advance_refl(self.symbols@);
                        lemma_ts_denotes_mono(
                            mid.ty_context@,
                            mid.symbols@,
                            self.ty_context@,
                            self.symbols@,
                            *base.ptr,
                            h,
                        );
                        assert(ts_denotes(self.ty_context@, self.symbols@, typespec@, ptr));
                    }
                    return Ok(ptr);
                }
                let ghost pre_rec = *self;
                match self.resolve_typespec(base) {
                    Ok(base_t) => {
                        let ghost mid = *self;
                        let ptr = self.ty_context.add_type(Ty::ptr(base_t));
                        proof {
                            lemma_tt_extends_trans(
                                self.ty_context@,
                                mid.ty_context@,
                                old(self).ty_context@,
                            );
                            assert(ts_denotes(mid.ty_context@, mid.symbols@, *base.ptr, base_t));
                            lemma_ts_denotes_mono(
                                mid.ty_context@,
                                mid.symbols@,
                                self.ty_context@,
                                self.symbols@,
                                *base.ptr,
                                base_t,
                            );
                            assert(ts_denotes(self.ty_context@, self.symbols@, typespec@, ptr));
                            assert forall|t: TyId|
                                ts_resolved_to(
                                    old(self).ty_context@,
                                    old(self).symbols@,
                                    typespec@,
                                    t,
                                ) implies Ok::<TyId, ResolveError>(ptr) == Ok::<TyId,
                            ResolveError>(t) && self.ty_context@ == old(self).ty_context@
                                && self.symbols@ == old(self).symbols@ by {
                                let b = old(self).ty_context@[t.0 as int].kind->Ptr_0;
                                assert(ts_resolved_to(
                                    old(self).ty_context@,
                                    old(self).symbols@,
                                    *base.ptr,
                                    b,
                                ));
                                assert(base_t == b && mid.ty_context@ == old(self).ty_context@
                                    && mid.symbols@ == old(self).symbols@);
                                assert(same_ty(
                                    old(self).ty_context@[t.0 as int],
                                    Ty { kind: TyKind::Ptr(b) },
                                ));
                                assert(ty_found(mid.ty_context@, Ty { kind: TyKind::Ptr(b) }));
                                let w = choose|x: int|
                                    0 <= x < mid.ty_context@.len() && same_ty(
                                        #[trigger] mid.ty_context@[x],
                                        Ty { kind: TyKind::Ptr(b) },
                                    );
                                ty::lemma_ty_found_unique(
                                    mid.ty_context@,
                                    Ty { kind: TyKind::Ptr(b) },
                                    w,
                                    t.0 as int,
                                );
                            }
                        }
                        Ok(ptr)
                    },
                    Err(err) => {
                        proof {
                            assert forall|t: TyId|
                                !ts_resolved_to(
                                    old(self).ty_context@,
                                    old(self).symbols@,
                                    typespec@,
                                    t,
                                ) by {
                                if ts_resolved_to(
                                    old(self).ty_context@,
                                    old(self).symbols@,
                                    typespec@,
                                    t,
                                ) {
                                    let b = old(self).ty_context@[t.0 as int].kind->Ptr_0;
                                    assert(ts_resolved_to(
                                        old(self).ty_context@,
                                        old(self).symbols@,
                                        *base.ptr,
                                        b,
                                    ));
                                    assert(false);
                                }
                            }
                        }
                        Err(err)
                    },
                }
            },
        }
    }
}

/// Updating one symbol's state preserves well-formedness when the new state
/// is valid for the entry's kind.
proof fn lemma_wf_after_state_update(a: TyResolver, b: TyResolver, i: int)
    requires
        resolver_wf(a),
        0 <= i < a.symbols@.len(),
        b.ty_context == a.ty_context,
        b.builtin_types == a.builtin_types,
        b.alias_defs@ == a.alias_defs@,
        b.struct_defs@ == a.struct_defs@,
        b.symbols@ == a.symbols@.update(
            i,
            GlobalEntry { kind: a.symbols@[i].kind, name: a.symbols@[i].name, state: b.symbols@[i].state },
        ),
        entry_valid(
            b.symbols@[i],
            b.ty_context@.len() as int,
            b.alias_defs@.len() as int,
            b.struct_defs@.len() as int,
        ),
    ensures
        resolver_wf(b),
{
    assert forall|x: int, y: int|
        0 <= x < b.symbols@.len() && 0 <= y < b.symbols@.len() && x != y implies (
    #[trigger] b.symbols@[x]).name != (#[trigger] b.symbols@[y]).name by {
        assert(b.symbols@[x].name == a.symbols@[x].name);
        assert(b.symbols@[y].name == a.symbols@[y].name);
    }
    assert forall|x: int| 0 <= x < b.symbols@.len() implies entry_valid(
        #[trigger] b.symbols@[x],
        b.ty_context@.len() as int,
        b.alias_defs@.len() as int,
        b.struct_defs@.len() as int,
    ) by {
        if x != i {
            assert(b.symbols@[x] == a.symbols@[x]);
        }
    }
}


// ------------------------------------------------------------------
// Declaration signature resolution
// ------------------------------------------------------------------

/// `t` is the handle of `d`'s function signature type: a function descriptor
/// whose parameter handles pointwise denote the written parameter types and
/// whose return handle denotes the written return type (or `void` when
/// absent).
pub open spec fn decl_sig_denotes(
    tt: Seq<Ty>,
    syms: Seq<GlobalEntry>,
    bt: BuiltinTypes,
    d: Decl,
    t: TyId,
) -> bool {
    match d.kind {
        DeclKind::Function { params, return_type, body: _ } => t.0 < tt.len() && match tt[t.0 as int].kind {
            TyKind::Function { params: pts, return_type: rt } => {
                &&& pts@.len() == params@.len()
                &&& forall|i: int|
                    0 <= i < params@.len() ==> ts_denotes(
                        tt,
                        syms,
                        *(#[trigger] params@[i]).ty.ptr,
                        pts@[i],
                    )
                &&& match return_type {
                    Some(rts) => ts_denotes(tt, syms, *rts.ptr, rt),
                    None => rt == bt.ty_void,
                }
            },
            _ => false,
        },
    }
}

/// Every written type in the declaration's signature already resolves in the
/// given state and the declared name is free: the inputs on which signature
/// resolution is guaranteed to succeed.
pub open spec fn decl_sig_resolvable(tt: Seq<Ty>, syms: Seq<GlobalEntry>, d: Decl) -> bool {
    match d.kind {
        DeclKind::Function { params, return_type, body: _ } => {
            &&& globals_lookup(syms, d.name) is None
            &&& forall|i: int|
                0 <= i < params@.len() ==> exists|t: TyId|
                    ts_resolved_to(tt, syms, *(#[trigger] params@[i]).ty.ptr, t)
            &&& match return_type {
                Some(rts) => exists|t: TyId| ts_resolved_to(tt, syms, *rts.ptr, t),
                None => true,
            }
        },
    }
}

/// Denotation survives registering a new global under a fresh name.
proof fn lemma_ts_denotes_push(
    tt: Seq<Ty>,
    syms: Seq<GlobalEntry>,
    e: GlobalEntry,
    ts: Typespec,
    t: TyId,
)
    requires
        ts_denotes(tt, syms, ts, t),
        globals_lookup(syms, e.name) is None,
    ensures
        ts_denotes(tt, syms.push(e), ts, t),
    decreases ts,
{
    match ts.kind {
        TypespecKind::Name(id) => {
            assert(syms.push(e).drop_last() =~= syms);
            assert(id != e.name);
        },
        TypespecKind::Ptr(inner) => {
            let b = tt[t.0 as int].kind->Ptr_0;
            lemma_ts_denotes_push(tt, syms, e, *inner.ptr, b);
        },
    }
}

impl TyResolver {
    /// Resolve a function declaration's signature: resolve each parameter's
    /// written type and the optional return type (absent means `void`),
    /// intern the function descriptor, and register the function as a global
    /// symbol. Fails with duplicate-definition when the name is taken.
    #[verifier::loop_isolation(false)]
    #[verifier::rlimit(100)]
    pub fn resolve_decl(&mut self, decl: &P<Decl>) -> (r: Result<TyId, ResolveError>)
        requires
            resolver_wf(*old(self)),
        ensures
            resolver_wf(*final(self)),
            same_defs(*final(self), *old(self)),
            tt_extends(final(self).ty_context@, old(self).ty_context@),
            pending_count(final(self).symbols@) <= pending_count(old(self).symbols@),
            old(self).symbols@.len() <= final(self).symbols@.len() <= old(self).symbols@.len() + 1,
            syms_advance(
                final(self).symbols@.take(old(self).symbols@.len() as int),
                old(self).symbols@,
            ),
            r matches Ok(t) ==> {
                &&& t.0 < final(self).ty_context@.len()
                &&& final(self).symbols@.len() == old(self).symbols@.len() + 1
                &&& final(self).symbols@.last() == (GlobalEntry {
                    kind: SymbolKind::Function,
                    name: decl@.name,
                    state: SymbolState::Resolved(t),
                })
                &&& globals_lookup(old(self).symbols@, decl@.name) is None
                &&& decl_sig_denotes(
                    final(self).ty_context@,
                    final(self).symbols@,
                    final(self).builtin_types,
                    decl@,
                    t,
                )
            },
            r == Err::<TyId, ResolveError>(ResolveError::DuplicateDefinition) ==> globals_lookup(
                old(self).symbols@,
                decl@.name,
            ) is Some,
            globals_lookup(old(self).symbols@, decl@.name) is Some ==> r is Err,
            r is Err ==> final(self).symbols@.len() == old(self).symbols@.len(),
            decl_sig_resolvable(old(self).ty_context@, old(self).symbols@, decl@) ==> r is Ok,
            fully_resolved(old(self).symbols@) ==> fully_resolved(final(self).symbols@)
                && final(self).symbols@.take(old(self).symbols@.len() as int) == old(
                self,
            ).symbols@,
    {
        match decl.get().kind() {
            DeclKind::Function { params, return_type, body: _ } => {
                let ghost tt0 = self.ty_context@;
                let ghost syms0 = self.symbols@;
                let n = params.len();
                let mut ty_params: Vec<TyId> = Vec::new();
                let mut idx: usize = 0;
                while idx < n
                    invariant
                        idx <= n,
                        n == params@.len(),
                        ty_params@.len() == idx,
                        resolver_wf(*self),
                        same_defs(*self, *old(self)),
                        tt_extends(self.ty_context@, tt0),
                        syms_advance(self.symbols@, syms0),
                        pending_count(self.symbols@) <= pending_count(syms0),
                        forall|i: int|
                            0 <= i < idx ==> (#[trigger] ty_params@[i]).0
                                < self.ty_context@.len(),
                        forall|i: int|
                            0 <= i < idx ==> ts_denotes(
                                self.ty_context@,
                                self.symbols@,
                                *(#[trigger] params@[i]).ty.ptr,
                                ty_params@[i],
                            ),
                        fully_resolved(syms0) ==> fully_resolved(self.symbols@),
                        decl_sig_resolvable(tt0, syms0, decl@) ==> self.ty_context@ == tt0
                            && self.symbols@ == syms0,
                    decreases n - idx,
                {
                    let ghost before = *self;
                    match self.resolve_typespec(params[idx].ty()) {
                        Ok(t) => {
                            ty_params.push(t);
                            proof {
                                lemma_tt_extends_trans(self.ty_context@, before.ty_context@, tt0);
                                lemma_syms_advance_trans(self.symbols@, before.symbols@, syms0);
                                assert forall|i: int| 0 <= i < idx implies ts_denotes(
                                    self.ty_context@,
                                    self.symbols@,
                                    *(#[trigger] params@[i]).ty.ptr,
                                    ty_params@[i],
                                ) by {
                                    lemma_ts_denotes_mono(
                                        before.ty_context@,
                                        before.symbols@,
                                        self.ty_context@,
                                        self.symbols@,
                                        *params@[i].ty.ptr,
                                        ty_params@[i],
                                    );
                                }
                                if decl_sig_resolvable(tt0, syms0, decl@) {
                                    let p = params@[idx as int];
                                    assert(exists|t0: TyId|
                                        ts_resolved_to(tt0, syms0, *p.ty.ptr, t0));
                                    let t0 = choose|t0: TyId|
                                        ts_resolved_to(tt0, syms0, *p.ty.ptr, t0);
                                    assert(before.ty_context@ == tt0 && before.symbols@ == syms0);
                                    assert(ts_resolved_to(
                                        before.ty_context@,
                                        before.symbols@,
                                        p.ty@,
                                        t0,
                                    ));
                                    assert(self.ty_context@ == tt0 && self.symbols@ == syms0);
                                }
                            }
                        },
                        Err(err) => {
                            proof {
                                lemma_tt_extends_trans(self.ty_context@, before.ty_context@, tt0);
                                lemma_syms_advance_trans(self.symbols@, before.symbols@, syms0);
                                if decl_sig_resolvable(tt0, syms0, decl@) {
                                    let p = params@[idx as int];
                                    assert(exists|t0: TyId|
                                        ts_resolved_to(tt0, syms0, *p.ty.ptr, t0));
                                    let t0 = choose|t0: TyId|
                                        ts_resolved_to(tt0, syms0, *p.ty.ptr, t0);
                                    assert(before.ty_context@ == tt0 && before.symbols@ == syms0);
                                    assert(ts_resolved_to(
                                        before.ty_context@,
                                        before.symbols@,
                                        p.ty@,
                                        t0,
                                    ));
                                    assert(false);
                                }
                            }
                            return Err(err);
                        },
                    }
                    idx += 1;
                }

                let ghost st_loop = *self;
                let return_ty: TyId = if let Some(return_type) = return_type {
                    let ghost before = *self;
                    match self.resolve_typespec(return_type) {
                        Ok(t) => {
                            proof {
                                lemma_tt_extends_trans(self.ty_context@, before.ty_context@, tt0);
                                lemma_syms_advance_trans(self.symbols@, before.symbols@, syms0);
                            }
                            t
                        },
                        Err(err) => {
                            proof {
                                lemma_tt_extends_trans(self.ty_context@, before.ty_context@, tt0);
                                lemma_syms_advance_trans(self.symbols@, before.symbols@, syms0);
                                if decl_sig_resolvable(tt0, syms0, decl@) {
                                    let rts = decl@.kind->Function_return_type->Some_0;
                                    assert(exists|t0: TyId|
                                        ts_resolved_to(tt0, syms0, *rts.ptr, t0));
                                    let t0 = choose|t0: TyId|
                                        ts_resolved_to(tt0, syms0, *rts.ptr, t0);
                                    assert(before.ty_context@ == tt0 && before.symbols@ == syms0);
                                    assert(ts_resolved_to(
                                        before.ty_context@,
                                        before.symbols@,
                                        rts@,
                                        t0,
                                    ));
                                    assert(false);
                                }
                            }
                            return Err(err);
                        },
                    }
                } else {
                    self.void()
                };

                let ghost mid = *self;
                let ghost rt_saved = return_ty;
                let fty = Ty::function(ty_params, return_ty);
                let ty = self.ty_context.add_type(fty);
                proof {
                    lemma_tt_extends_trans(self.ty_context@, mid.ty_context@, tt0);
                    lemma_syms_advance_refl(self.symbols@);
                }
                let sym = Symbol::function(decl.get().name(), ty);
                match self.add_symbol(sym) {
                    Ok(()) => {
                        proof {
                            lemma_globals_lookup_advance(mid.symbols@, syms0, decl@.name);
                            assert(self.symbols@.drop_last() =~= mid.symbols@);
                            assert(self.symbols@.take(syms0.len() as int) =~= mid.symbols@.take(
                                syms0.len() as int,
                            ));
                            assert(mid.symbols@.take(syms0.len() as int) =~= mid.symbols@);
                            // the interned function descriptor matches the signature
                            assert(self.ty_context@[ty.0 as int].kind is Function || same_ty(
                                self.ty_context@[ty.0 as int],
                                fty@,
                            ));
                            assert forall|i: int| 0 <= i < params@.len() implies ts_denotes(
                                self.ty_context@,
                                self.symbols@,
                                *(#[trigger] params@[i]).ty.ptr,
                                self.ty_context@[ty.0 as int].kind->Function_params@[i],
                            ) by {
                                assert(ts_denotes(
                                    st_loop.ty_context@,
                                    st_loop.symbols@,
                                    *params@[i].ty.ptr,
                                    fty@.kind->Function_params@[i],
                                ));
                                lemma_ts_denotes_mono(
                                    st_loop.ty_context@,
                                    st_loop.symbols@,
                                    self.ty_context@,
                                    mid.symbols@,
                                    *params@[i].ty.ptr,
                                    fty@.kind->Function_params@[i],
                                );
                                lemma_ts_denotes_push(
                                    self.ty_context@,
                                    mid.symbols@,
                                    self.symbols@.last(),
                                    *params@[i].ty.ptr,
                                    fty@.kind->Function_params@[i],
                                );
                            }
                            if let Some(rts) = decl@.kind->Function_return_type {
                                lemma_ts_denotes_mono(
                                    mid.ty_context@,
                                    mid.symbols@,
                                    self.ty_context@,
                                    mid.symbols@,
                                    *rts.ptr,
                                    rt_saved,
                                );
                                lemma_ts_denotes_push(
                                    self.ty_context@,
                                    mid.symbols@,
                                    self.symbols@.last(),
                                    *rts.ptr,
                                    rt_saved,
                                );
                            }
                        }
                        Ok(ty)
                    },
                    Err(err) => {
                        proof {
                            assert(self.symbols@.take(syms0.len() as int) =~= self.symbols@);
                            lemma_globals_lookup_advance(mid.symbols@, syms0, decl@.name);
                        }
                        Err(err)
                    },
                }
            },
        }
    }
}


// ------------------------------------------------------------------
// Expression resolution
// ------------------------------------------------------------------

/// A resolved expression: its type handle.
pub struct ResolvedExpr {
    pub ty: TyId,
}

/// Every local symbol's handle points into the type table.
pub open spec fn scope_valid(locals: Seq<Symbol>, n: int) -> bool {
    forall|i: int| 0 <= i < locals.len() ==> (#[trigger] locals[i]).ty.0 < n
}

pub open spec fn op_is_arith(op: BinaryOp) -> bool {
    op == BinaryOp::Multiply || op == BinaryOp::Divide || op == BinaryOp::Add || op
        == BinaryOp::Minus
}

pub open spec fn op_is_logic(op: BinaryOp) -> bool {
    op == BinaryOp::And || op == BinaryOp::Or
}

/// Pure model of expression resolution against an optional expected type.
/// It threads the type table (a string literal interns the byte-pointer type
/// `u8*`) and never touches the symbol table or scope.
///
/// - An integer literal adopts an expected integer type, else defaults to
///   `u64`.
/// - An identifier yields its symbol's type (locals shadow globals).
/// - A string literal yields `u8*`.
/// - Arithmetic operators require operands of one integer type and yield it;
///   comparisons require operands of one integer type and yield `u8`;
///   logical operators require `u8` operands and yield `u8`.
/// - A call requires a function-typed callee, the declared arity, and
///   pointwise argument types equal to the parameter types; it yields the
///   return type.
/// - An index requires a pointer or array base and an integer index and
///   yields the element type.
pub open spec fn sp_resolve_expr(
    tt: Seq<Ty>,
    syms: Seq<GlobalEntry>,
    bt: BuiltinTypes,
    locals: Seq<Symbol>,
    e: Expr,
    expected: Option<TyId>,
) -> (Seq<Ty>, Result<TyId, ResolveError>)
    decreases e, 0int,
{
    match e.kind {
        ExprKind::Integer(_) => match expected {
            Some(t) => if t.0 < tt.len() && tt[t.0 as int].kind is Int {
                (tt, Ok(t))
            } else {
                (tt, Ok(bt.ty_u64))
            },
            None => (tt, Ok(bt.ty_u64)),
        },
        ExprKind::Ident(id) => match sp_find_symbol(locals, syms, id) {
            Some(sym) => (tt, Ok(sym.ty)),
            None => (tt, Err(ResolveError::UnknownSymbol)),
        },
        ExprKind::String(_) => (
            intern_ty_table(tt, Ty { kind: TyKind::Ptr(bt.ty_u8) }),
            Ok(TyId(intern_ty_id(tt, Ty { kind: TyKind::Ptr(bt.ty_u8) }) as usize)),
        ),
        ExprKind::Binary { op, left, right } => {
            let first_expected: Option<TyId> = if op_is_arith(op) {
                expected
            } else if op_is_logic(op) {
                Some(bt.ty_u8)
            } else {
                None
            };
            let r1 = sp_resolve_expr(tt, syms, bt, locals, *left.ptr, first_expected);
            match r1.1 {
                Ok(lt) => {
                    let second_expected: Option<TyId> = if op_is_logic(op) {
                        Some(bt.ty_u8)
                    } else {
                        Some(lt)
                    };
                    let r2 = sp_resolve_expr(r1.0, syms, bt, locals, *right.ptr, second_expected);
                    match r2.1 {
                        Ok(rt) => if op_is_arith(op) {
                            if lt == rt && lt.0 < r2.0.len() && r2.0[lt.0 as int].kind is Int {
                                (r2.0, Ok(lt))
                            } else {
                                (r2.0, Err(ResolveError::TypeMismatch))
                            }
                        } else if op_is_logic(op) {
                            if lt == bt.ty_u8 && rt == bt.ty_u8 {
                                (r2.0, Ok(bt.ty_u8))
                            } else {
                                (r2.0, Err(ResolveError::TypeMismatch))
                            }
                        } else {
                            if lt == rt && lt.0 < r2.0.len() && r2.0[lt.0 as int].kind is Int {
                                (r2.0, Ok(bt.ty_u8))
                            } else {
                                (r2.0, Err(ResolveError::TypeMismatch))
                            }
                        },
                        Err(err) => (r2.0, Err(err)),
                    }
                },
                Err(err) => (r1.0, Err(err)),
            }
        },
        ExprKind::Call { expr: callee, args } => {
            let r1 = sp_resolve_expr(tt, syms, bt, locals, *callee.ptr, None);
            match r1.1 {
                Ok(ct) => if ct.0 < r1.0.len() && r1.0[ct.0 as int].kind is Function {
                    let pts = r1.0[ct.0 as int].kind->Function_params;
                    let rt = r1.0[ct.0 as int].kind->Function_return_type;
                    if args@.len() != pts@.len() {
                        (r1.0, Err(ResolveError::ArityMismatch))
                    } else {
                        let ra = sp_resolve_args(r1.0, syms, bt, locals, args@, pts@, 0);
                        match ra.1 {
                            Ok(u) => (ra.0, Ok(rt)),
                            Err(err) => (ra.0, Err(err)),
                        }
                    }
                } else {
                    (r1.0, Err(ResolveError::NotAFunction))
                },
                Err(err) => (r1.0, Err(err)),
            }
        },
        ExprKind::Index { expr: base_e, index } => {
            let r1 = sp_resolve_expr(tt, syms, bt, locals, *base_e.ptr, None);
            match r1.1 {
                Ok(bty) => {
                    let elem: Option<TyId> = if bty.0 < r1.0.len() {
                        match r1.0[bty.0 as int].kind {
                            TyKind::Ptr(b) => Some(b),
                            TyKind::Array { base, count: _ } => Some(base),
                            _ => None,
                        }
                    } else {
                        None
                    };
                    match elem {
                        Some(el) => {
                            let r2 = sp_resolve_expr(r1.0, syms, bt, locals, *index.ptr, None);
                            match r2.1 {
                                Ok(it) => if it.0 < r2.0.len() && r2.0[it.0 as int].kind
                                    is Int {
                                    (r2.0, Ok(el))
                                } else {
                                    (r2.0, Err(ResolveError::TypeMismatch))
                                },
                                Err(err) => (r2.0, Err(err)),
                            }
                        },
                        None => (r1.0, Err(ResolveError::TypeMismatch)),
                    }
                },
                Err(err) => (r1.0, Err(err)),
            }
        },
    }
}

/// Pure model of checking call arguments from position `j` on: each argument
/// resolves against the matching parameter type and must equal it exactly.
pub open spec fn sp_resolve_args(
    tt: Seq<Ty>,
    syms: Seq<GlobalEntry>,
    bt: BuiltinTypes,
    locals: Seq<Symbol>,
    args: Seq<P<Expr>>,
    pts: Seq<TyId>,
    j: int,
) -> (Seq<Ty>, Result<(), ResolveError>)
    decreases args, args.len() - j,
    when 0 <= j <= args.len() && args.len() == pts.len()
{
    if j >= args.len() {
        (tt, Ok(()))
    } else {
        let r1 = sp_resolve_expr(tt, syms, bt, locals, *args[j].ptr, Some(pts[j]));
        match r1.1 {
            Ok(at) => if at == pts[j] {
                sp_resolve_args(r1.0, syms, bt, locals, args, pts, j + 1)
            } else {
                (r1.0, Err(ResolveError::TypeMismatch))
            },
            Err(err) => (r1.0, Err(err)),
        }
    }
}

/// A symbol found by lookup is one of the scope's entries.
proof fn lemma_scope_lookup_some_in(locals: Seq<Symbol>, name: Ident)
    ensures
        scope_lookup_found_post(locals, name),
    decreases locals.len(),
{
    if locals.len() > 0 {
        lemma_scope_lookup_some_in(locals.drop_last(), name);
    }
}

/// Helper conclusion of `lemma_scope_lookup_some_in`.
pub open spec fn scope_lookup_found_post(locals: Seq<Symbol>, name: Ident) -> bool {
    match scope_lookup(locals, name) {
        Some(s) => exists|i: int| 0 <= i < locals.len() && #[trigger] locals[i] == s,
        None => true,
    }
}


impl TyResolver {
    /// Resolve and type-check one expression against an optional expected
    /// type, exactly as `sp_resolve_expr` describes.
    #[verifier::loop_isolation(false)]
    #[verifier::rlimit(100)]
    pub fn resolve_expr(
        &mut self,
        scope: &mut Scope,
        expr: &P<Expr>,
        expected_ty: Option<TyId>,
    ) -> (r: Result<ResolvedExpr, ResolveError>)
        requires
            resolver_wf(*old(self)),
            scope_valid(old(scope)@, old(self).ty_context@.len() as int),
            expected_ty matches Some(t) ==> t.0 < old(self).ty_context@.len(),
        ensures
            resolver_wf(*final(self)),
            same_defs(*final(self), *old(self)),
            final(self).symbols@ == old(self).symbols@,
            final(scope)@ == old(scope)@,
            tt_extends(final(self).ty_context@, old(self).ty_context@),
            r matches Ok(re) ==> re.ty.0 < final(self).ty_context@.len(),
            final(self).ty_context@ == sp_resolve_expr(
                old(self).ty_context@,
                old(self).symbols@,
                old(self).builtin_types,
                old(scope)@,
                expr@,
                expected_ty,
            ).0,
            (match r {
                Ok(re) => sp_resolve_expr(
                    old(self).ty_context@,
                    old(self).symbols@,
                    old(self).builtin_types,
                    old(scope)@,
                    expr@,
                    expected_ty,
                ).1 == Ok::<TyId, ResolveError>(re.ty),
                Err(err) => sp_resolve_expr(
                    old(self).ty_context@,
                    old(self).symbols@,
                    old(self).builtin_types,
                    old(scope)@,
                    expr@,
                    expected_ty,
                ).1 == Err::<TyId, ResolveError>(err),
            }),
        decreases *expr.ptr,
    {
        match expr.get().kind() {
            ExprKind::Integer(_value) => {
                if let Some(expected) = expected_ty {
                    let ty = self.ty_context.get_type(expected);
                    if let TyKind::Int(_) = ty.get().kind() {
                        return Ok(ResolvedExpr { ty: expected });
                    }
                }
                Ok(ResolvedExpr { ty: self.u64() })
            },
            ExprKind::Ident(ident) => {
                if let Some(sym) = self.find_symbol(scope, *ident) {
                    proof {
                        lemma_scope_lookup_some_in(scope@, *ident);
                        lemma_globals_lookup_some_in(self.symbols@, *ident);
                    }
                    Ok(ResolvedExpr { ty: sym.ty })
                } else {
                    Err(ResolveError::UnknownSymbol)
                }
            },
            ExprKind::String(_s) => {
                let u8t = self.u8();
                let ptr = self.ty_context.add_type(Ty::ptr(u8t));
                Ok(ResolvedExpr { ty: ptr })
            },
            ExprKind::Binary { op, left, right } => {
                let op = *op;
                let arith = op == BinaryOp::Multiply || op == BinaryOp::Divide || op
                    == BinaryOp::Add || op == BinaryOp::Minus;
                let logic = op == BinaryOp::And || op == BinaryOp::Or;
                let first_expected: Option<TyId> = if arith {
                    expected_ty
                } else if logic {
                    Some(self.u8())
                } else {
                    None
                };
                let lt = match self.resolve_expr(scope, left, first_expected) {
                    Ok(re) => re.ty,
                    Err(err) => {
                        return Err(err);
                    },
                };
                let second_expected: Option<TyId> = if logic {
                    Some(self.u8())
                } else {
                    Some(lt)
                };
                let ghost snap2 = self.ty_context@;
                let rt = match self.resolve_expr(scope, right, second_expected) {
                    Ok(re) => re.ty,
                    Err(err) => {
                        proof {
                            lemma_tt_extends_trans(
                                self.ty_context@,
                                snap2,
                                old(self).ty_context@,
                            );
                        }
                        return Err(err);
                    },
                };
                proof {
                    lemma_tt_extends_trans(self.ty_context@, snap2, old(self).ty_context@);
                }
                if arith {
                    if lt == rt {
                        if let TyKind::Int(_) = self.ty_context.get_type(lt).get().kind() {
                            return Ok(ResolvedExpr { ty: lt });
                        }
                    }
                    Err(ResolveError::TypeMismatch)
                } else if logic {
                    if lt == self.u8() && rt == self.u8() {
                        Ok(ResolvedExpr { ty: self.u8() })
                    } else {
                        Err(ResolveError::TypeMismatch)
                    }
                } else {
                    if lt == rt {
                        if let TyKind::Int(_) = self.ty_context.get_type(lt).get().kind() {
                            return Ok(ResolvedExpr { ty: self.u8() });
                        }
                    }
                    Err(ResolveError::TypeMismatch)
                }
            },
            ExprKind::Call { expr: callee, args } => {
                let ct = match self.resolve_expr(scope, callee, None) {
                    Ok(re) => re.ty,
                    Err(err) => {
                        return Err(err);
                    },
                };
                let ghost tt1 = self.ty_context@;
                let mut param_tys: Vec<TyId> = Vec::new();
                let mut ret_ty: TyId = TyId(0);
                let mut is_function = false;
                match self.ty_context.get_type(ct).get().kind() {
                    TyKind::Function { params, return_type } => {
                        let np = params.len();
                        let mut pi: usize = 0;
                        while pi < np
                            invariant
                                pi <= np,
                                np == params@.len(),
                                param_tys@ == params@.take(pi as int),
                            decreases np - pi,
                        {
                            param_tys.push(params[pi]);
                            proof {
                                assert(param_tys@ =~= params@.take(pi as int + 1));
                            }
                            pi += 1;
                        }
                        proof {
                            assert(param_tys@ =~= params@);
                        }
                        ret_ty = *return_type;
                        is_function = true;
                    },
                    _ => {},
                }
                if !is_function {
                    return Err(ResolveError::NotAFunction);
                }
                proof {
                    assert(ty::ty_comps_valid(self.ty_context@[ct.0 as int], self.ty_context@.len() as int));
                }
                if args.len() != param_tys.len() {
                    return Err(ResolveError::ArityMismatch);
                }
                let na = args.len();
                let mut i: usize = 0;
                while i < na
                    invariant
                        i <= na,
                        na == args@.len(),
                        na == param_tys@.len(),
                        resolver_wf(*self),
                        same_defs(*self, *old(self)),
                        self.symbols@ == old(self).symbols@,
                        scope@ == old(scope)@,
                        tt_extends(self.ty_context@, tt1),
                        ret_ty.0 < self.ty_context@.len(),
                        forall|k: int|
                            0 <= k < na ==> (#[trigger] param_tys@[k]).0 < self.ty_context@.len(),
                        sp_resolve_args(
                            tt1,
                            self.symbols@,
                            self.builtin_types,
                            scope@,
                            args@,
                            param_tys@,
                            0,
                        ) == sp_resolve_args(
                            self.ty_context@,
                            self.symbols@,
                            self.builtin_types,
                            scope@,
                            args@,
                            param_tys@,
                            i as int,
                        ),
                    decreases na - i,
                {
                    let ghost before_tt = self.ty_context@;
                    let re = match self.resolve_expr(scope, &args[i], Some(param_tys[i])) {
                        Ok(re) => re,
                        Err(err) => {
                            proof {
                                lemma_tt_extends_trans(self.ty_context@, before_tt, tt1);
                                lemma_tt_extends_trans(
                                    self.ty_context@,
                                    tt1,
                                    old(self).ty_context@,
                                );
                            }
                            return Err(err);
                        },
                    };
                    if re.ty != param_tys[i] {
                        proof {
                            lemma_tt_extends_trans(self.ty_context@, before_tt, tt1);
                            lemma_tt_extends_trans(self.ty_context@, tt1, old(self).ty_context@);
                        }
                        return Err(ResolveError::TypeMismatch);
                    }
                    proof {
                        lemma_tt_extends_trans(self.ty_context@, before_tt, tt1);
                    }
                    i += 1;
                }
                proof {
                    lemma_tt_extends_trans(self.ty_context@, tt1, old(self).ty_context@);
                }
                Ok(ResolvedExpr { ty: ret_ty })
            },
            ExprKind::Index { expr: base_e, index } => {
                let bty = match self.resolve_expr(scope, base_e, None) {
                    Ok(re) => re.ty,
                    Err(err) => {
                        return Err(err);
                    },
                };
                let mut elem: Option<TyId> = None;
                match self.ty_context.get_type(bty).get().kind() {
                    TyKind::Ptr(b) => {
                        elem = Some(*b);
                    },
                    TyKind::Array { base, count: _ } => {
                        elem = Some(*base);
                    },
                    _ => {},
                }
                proof {
                    assert(ty::ty_comps_valid(self.ty_context@[bty.0 as int], self.ty_context@.len() as int));
                }
                let el = match elem {
                    Some(el) => el,
                    None => {
                        return Err(ResolveError::TypeMismatch);
                    },
                };
                let ghost snap2 = self.ty_context@;
                let it = match self.resolve_expr(scope, index, None) {
                    Ok(re) => re.ty,
                    Err(err) => {
                        proof {
                            lemma_tt_extends_trans(
                                self.ty_context@,
                                snap2,
                                old(self).ty_context@,
                            );
                        }
                        return Err(err);
                    },
                };
                proof {
                    lemma_tt_extends_trans(self.ty_context@, snap2, old(self).ty_context@);
                }
                if let TyKind::Int(_) = self.ty_context.get_type(it).get().kind() {
                    Ok(ResolvedExpr { ty: el })
                } else {
                    Err(ResolveError::TypeMismatch)
                }
            },
        }
    }
}


// ------------------------------------------------------------------
// Statement and body resolution
// ------------------------------------------------------------------

/// Pure model of resolving one statement (in a fully resolved symbol table):
/// - `var name: T = e;` resolves `T`, checks `e` against it exactly, and only
///   then binds `name`, so an initializer cannot see its own variable;
/// - `ret e;` checks `e` against the function's return type exactly;
/// - an expression statement checks its expression with no expectation and
///   discards the result.
pub open spec fn sp_resolve_stmt(
    tt: Seq<Ty>,
    syms: Seq<GlobalEntry>,
    bt: BuiltinTypes,
    locals: Seq<Symbol>,
    st: Stmt,
    return_ty: TyId,
) -> (Seq<Ty>, Seq<Symbol>, Result<(), ResolveError>) {
    match st.kind {
        StmtKind::Var { name, typ, expr } => {
            let r1 = sp_resolve_typespec(tt, syms, *typ.ptr);
            match r1.1 {
                Ok(t) => match expr {
                    Some(e) => {
                        let r2 = sp_resolve_expr(r1.0, syms, bt, locals, *e.ptr, Some(t));
                        match r2.1 {
                            Ok(et) => if et == t {
                                (
                                    r2.0,
                                    locals.push(Symbol { kind: SymbolKind::Var, name, ty: t }),
                                    Ok(()),
                                )
                            } else {
                                (r2.0, locals, Err(ResolveError::TypeMismatch))
                            },
                            Err(err) => (r2.0, locals, Err(err)),
                        }
                    },
                    None => (
                        r1.0,
                        locals.push(Symbol { kind: SymbolKind::Var, name, ty: t }),
                        Ok(()),
                    ),
                },
                Err(err) => (r1.0, locals, Err(err)),
            }
        },
        StmtKind::Ret(e) => {
            let r1 = sp_resolve_expr(tt, syms, bt, locals, *e.ptr, Some(return_ty));
            match r1.1 {
                Ok(et) => if et == return_ty {
                    (r1.0, locals, Ok(()))
                } else {
                    (r1.0, locals, Err(ResolveError::TypeMismatch))
                },
                Err(err) => (r1.0, locals, Err(err)),
            }
        },
        StmtKind::Expr(e) => {
            let r1 = sp_resolve_expr(tt, syms, bt, locals, *e.ptr, None);
            match r1.1 {
                Ok(u) => (r1.0, locals, Ok(())),
                Err(err) => (r1.0, locals, Err(err)),
            }
        },
    }
}

/// Pure model of resolving a statement list from position `j` on, threading
/// the type table and the growing local scope.
pub open spec fn sp_resolve_block(
    tt: Seq<Ty>,
    syms: Seq<GlobalEntry>,
    bt: BuiltinTypes,
    locals: Seq<Symbol>,
    stmts: Seq<P<Stmt>>,
    return_ty: TyId,
    j: int,
) -> (Seq<Ty>, Seq<Symbol>, Result<(), ResolveError>)
    decreases stmts.len() - j,
    when 0 <= j <= stmts.len()
{
    if j >= stmts.len() {
        (tt, locals, Ok(()))
    } else {
        let r1 = sp_resolve_stmt(tt, syms, bt, locals, *stmts[j].ptr, return_ty);
        match r1.2 {
            Ok(u) => sp_resolve_block(r1.0, syms, bt, r1.1, stmts, return_ty, j + 1),
            Err(err) => r1,
        }
    }
}

/// The scope a function body starts from: one local variable per parameter,
/// bound to the matching handle of the signature, in declaration order.
pub open spec fn param_scope(params: Seq<crate::ast::FunctionParam>, pts: Seq<TyId>) -> Seq<Symbol> {
    Seq::new(
        if params.len() <= pts.len() {
            params.len()
        } else {
            pts.len()
        },
        |i: int| Symbol { kind: SymbolKind::Var, name: params[i].name, ty: pts[i] },
    )
}

/// Pure model of resolving one declaration's body against its previously
/// registered signature. A declaration whose name was never registered is
/// skipped; a symbol of the wrong kind or shape is the not-a-function error.
pub open spec fn sp_resolve_decl_body(
    tt: Seq<Ty>,
    syms: Seq<GlobalEntry>,
    bt: BuiltinTypes,
    d: Decl,
) -> (Seq<Ty>, Result<(), ResolveError>) {
    match d.kind {
        DeclKind::Function { params, return_type: _, body } => match globals_lookup(syms, d.name) {
            None => (tt, Ok(())),
            Some(e) => if e.kind != SymbolKind::Function {
                (tt, Err(ResolveError::NotAFunction))
            } else {
                match e.state {
                    SymbolState::Resolved(t) => if t.0 < tt.len() && tt[t.0 as int].kind
                        is Function {
                        let pts = tt[t.0 as int].kind->Function_params;
                        let rt = tt[t.0 as int].kind->Function_return_type;
                        let rb = sp_resolve_block(
                            tt,
                            syms,
                            bt,
                            param_scope(params@, pts@),
                            body.stmts@,
                            rt,
                            0,
                        );
                        (rb.0, rb.2)
                    } else {
                        (tt, Err(ResolveError::NotAFunction))
                    },
                    _ => (tt, Err(ResolveError::NotAFunction)),
                }
            },
        },
    }
}

impl TyResolver {
    /// Resolve one statement against the current scope and the enclosing
    /// function's return type, exactly as `sp_resolve_stmt` describes when
    /// every global symbol is resolved.
    #[verifier::rlimit(100)]
    pub fn resolve_stmt(
        &mut self,
        scope: &mut Scope,
        stmt: &P<Stmt>,
        return_ty: TyId,
    ) -> (r: Result<(), ResolveError>)
        requires
            resolver_wf(*old(self)),
            scope_valid(old(scope)@, old(self).ty_context@.len() as int),
            return_ty.0 < old(self).ty_context@.len(),
        ensures
            resolver_wf(*final(self)),
            same_defs(*final(self), *old(self)),
            tt_extends(final(self).ty_context@, old(self).ty_context@),
            syms_advance(final(self).symbols@, old(self).symbols@),
            pending_count(final(self).symbols@) <= pending_count(old(self).symbols@),
            old(scope)@.is_prefix_of(final(scope)@),
            final(scope)@.len() <= old(scope)@.len() + 1,
            scope_valid(final(scope)@, final(self).ty_context@.len() as int),
            r is Err ==> final(scope)@ == old(scope)@,
            fully_resolved(old(self).symbols@) ==> {
                let sp = sp_resolve_stmt(
                    old(self).ty_context@,
                    old(self).symbols@,
                    old(self).builtin_types,
                    old(scope)@,
                    stmt@,
                    return_ty,
                );
                &&& final(self).symbols@ == old(self).symbols@
                &&& final(self).ty_context@ == sp.0
                &&& final(scope)@ == sp.1
                &&& (match r {
                    Ok(u) => sp.2 == Ok::<(), ResolveError>(()),
                    Err(err) => sp.2 == Err::<(), ResolveError>(err),
                })
            },
    {
        match stmt.get().kind() {
            StmtKind::Var { name, typ, expr } => {
                let ty = match self.resolve_typespec(typ) {
                    Ok(t) => t,
                    Err(err) => {
                        return Err(err);
                    },
                };
                let ghost mid = *self;
                proof {
                    assert forall|i: int| 0 <= i < scope@.len() implies (
                    #[trigger] scope@[i]).ty.0 < self.ty_context@.len() by {}
                }
                if let Some(expr) = expr {
                    let resolved = match self.resolve_expr(scope, expr, Some(ty)) {
                        Ok(re) => re,
                        Err(err) => {
                            proof {
                                lemma_tt_extends_trans(
                                    self.ty_context@,
                                    mid.ty_context@,
                                    old(self).ty_context@,
                                );
                            }
                            return Err(err);
                        },
                    };
                    proof {
                        lemma_tt_extends_trans(
                            self.ty_context@,
                            mid.ty_context@,
                            old(self).ty_context@,
                        );
                    }
                    if resolved.ty != ty {
                        return Err(ResolveError::TypeMismatch);
                    }
                }
                scope.add_var(*name, ty);
                proof {
                    assert(old(scope)@.is_prefix_of(scope@)) by {
                        assert(scope@.take(old(scope)@.len() as int) =~= old(scope)@);
                    }
                }
                Ok(())
            },
            StmtKind::Ret(expr) => {
                let resolved = match self.resolve_expr(scope, expr, Some(return_ty)) {
                    Ok(re) => re,
                    Err(err) => {
                        return Err(err);
                    },
                };
                if resolved.ty != return_ty {
                    return Err(ResolveError::TypeMismatch);
                }
                Ok(())
            },
            StmtKind::Expr(expr) => {
                match self.resolve_expr(scope, expr, None) {
                    Ok(u) => Ok(()),
                    Err(err) => Err(err),
                }
            },
        }
    }

    /// Resolve a block's statements in order against the current scope.
    #[verifier::loop_isolation(false)]
    #[verifier::rlimit(100)]
    pub fn resolve_stmt_block(
        &mut self,
        scope: &mut Scope,
        stmt_block: &StmtBlock,
        return_ty: TyId,
    ) -> (r: Result<(), ResolveError>)
        requires
            resolver_wf(*old(self)),
            scope_valid(old(scope)@, old(self).ty_context@.len() as int),
            return_ty.0 < old(self).ty_context@.len(),
        ensures
            resolver_wf(*final(self)),
            same_defs(*final(self), *old(self)),
            tt_extends(final(self).ty_context@, old(self).ty_context@),
            syms_advance(final(self).symbols@, old(self).symbols@),
            pending_count(final(self).symbols@) <= pending_count(old(self).symbols@),
            old(scope)@.is_prefix_of(final(scope)@),
            scope_valid(final(scope)@, final(self).ty_context@.len() as int),
            fully_resolved(old(self).symbols@) ==> {
                let sp = sp_resolve_block(
                    old(self).ty_context@,
                    old(self).symbols@,
                    old(self).builtin_types,
                    old(scope)@,
                    stmt_block.stmts@,
                    return_ty,
                    0,
                );
                &&& final(self).symbols@ == old(self).symbols@
                &&& final(self).ty_context@ == sp.0
                &&& final(scope)@ == sp.1
                &&& (match r {
                    Ok(u) => sp.2 == Ok::<(), ResolveError>(()),
                    Err(err) => sp.2 == Err::<(), ResolveError>(err),
                })
            },
    {
        let stmts = stmt_block.stmts();
        let n = stmts.len();
        let ghost tt0 = self.ty_context@;
        let ghost syms0 = self.symbols@;
        let ghost locals0 = scope@;
        let mut j: usize = 0;
        while j < n
            invariant
                j <= n,
                n == stmt_block.stmts@.len(),
                stmts@ == stmt_block.stmts@,
                resolver_wf(*self),
                same_defs(*self, *old(self)),
                tt_extends(self.ty_context@, tt0),
                syms_advance(self.symbols@, syms0),
                pending_count(self.symbols@) <= pending_count(syms0),
                locals0.is_prefix_of(scope@),
                scope_valid(scope@, self.ty_context@.len() as int),
                fully_resolved(syms0) ==> {
                    &&& self.symbols@ == syms0
                    &&& fully_resolved(self.symbols@)
                    &&& sp_resolve_block(
                        tt0,
                        syms0,
                        old(self).builtin_types,
                        locals0,
                        stmt_block.stmts@,
                        return_ty,
                        0,
                    ) == sp_resolve_block(
                        self.ty_context@,
                        syms0,
                        old(self).builtin_types,
                        scope@,
                        stmt_block.stmts@,
                        return_ty,
                        j as int,
                    )
                },
            decreases n - j,
        {
            let ghost before = *self;
            let ghost scope_before = scope@;
            match self.resolve_stmt(scope, &stmts[j], return_ty) {
                Ok(u) => {},
                Err(err) => {
                    proof {
                        lemma_tt_extends_trans(self.ty_context@, before.ty_context@, tt0);
                        lemma_syms_advance_trans(self.symbols@, before.symbols@, syms0);
                        assert(locals0.is_prefix_of(scope@)) by {
                            assert(scope@ == scope_before);
                        }
                    }
                    return Err(err);
                },
            }
            proof {
                lemma_tt_extends_trans(self.ty_context@, before.ty_context@, tt0);
                lemma_syms_advance_trans(self.symbols@, before.symbols@, syms0);
                assert(locals0.is_prefix_of(scope@)) by {
                    assert(scope_before.is_prefix_of(scope@));
                    assert(scope@.take(locals0.len() as int) =~= locals0);
                }
            }
            j += 1;
        }
        Ok(())
    }

    /// Fetch a declaration's previously resolved signature, seed a fresh
    /// scope with its parameters, and check the body. A name never registered
    /// is skipped, matching the two-phase pipeline's tolerance for
    /// declarations that failed phase one.
    #[verifier::loop_isolation(false)]
    #[verifier::rlimit(100)]
    pub fn resolve_decl_body(&mut self, decl: &P<Decl>) -> (r: Result<(), ResolveError>)
        requires
            resolver_wf(*old(self)),
        ensures
            resolver_wf(*final(self)),
            same_defs(*final(self), *old(self)),
            tt_extends(final(self).ty_context@, old(self).ty_context@),
            syms_advance(final(self).symbols@, old(self).symbols@),
            pending_count(final(self).symbols@) <= pending_count(old(self).symbols@),
            fully_resolved(old(self).symbols@) ==> {
                let sp = sp_resolve_decl_body(
                    old(self).ty_context@,
                    old(self).symbols@,
                    old(self).builtin_types,
                    decl@,
                );
                &&& final(self).symbols@ == old(self).symbols@
                &&& final(self).ty_context@ == sp.0
                &&& (match r {
                    Ok(u) => sp.1 == Ok::<(), ResolveError>(()),
                    Err(err) => sp.1 == Err::<(), ResolveError>(err),
                })
            },
    {
        match decl.get().kind() {
            DeclKind::Function { params, return_type: _, body } => {
                let name = decl.get().name();
                let i = match self.find_global_index(name) {
                    Some(i) => i,
                    None => {
                        return Ok(());
                    },
                };
                let e = self.symbols[i];
                if e.kind != SymbolKind::Function {
                    return Err(ResolveError::NotAFunction);
                }
                let t = match e.state {
                    SymbolState::Resolved(t) => t,
                    _ => {
                        return Err(ResolveError::NotAFunction);
                    },
                };
                proof {
                    assert(entry_valid(
                        e,
                        self.ty_context@.len() as int,
                        self.alias_defs@.len() as int,
                        self.struct_defs@.len() as int,
                    ));
                }
                let mut param_tys: Vec<TyId> = Vec::new();
                let mut ret_ty: TyId = TyId(0);
                let mut is_function = false;
                match self.ty_context.get_type(t).get().kind() {
                    TyKind::Function { params: pts, return_type } => {
                        let np = pts.len();
                        let mut pi: usize = 0;
                        while pi < np
                            invariant
                                pi <= np,
                                np == pts@.len(),
                                param_tys@ == pts@.take(pi as int),
                            decreases np - pi,
                        {
                            param_tys.push(pts[pi]);
                            proof {
                                assert(param_tys@ =~= pts@.take(pi as int + 1));
                            }
                            pi += 1;
                        }
                        proof {
                            assert(param_tys@ =~= pts@);
                        }
                        ret_ty = *return_type;
                        is_function = true;
                    },
                    _ => {},
                }
                if !is_function {
                    return Err(ResolveError::NotAFunction);
                }
                proof {
                    assert(ty::ty_comps_valid(
                        self.ty_context@[t.0 as int],
                        self.ty_context@.len() as int,
                    ));
                }

                let mut scope = Scope::new();
                let n = if params.len() < param_tys.len() {
                    params.len()
                } else {
                    param_tys.len()
                };
                let mut k: usize = 0;
                while k < n
                    invariant
                        k <= n,
                        n <= params@.len(),
                        n <= param_tys@.len(),
                        n == param_scope(params@, param_tys@).len(),
                        scope@ == param_scope(params@, param_tys@).take(k as int),
                    decreases n - k,
                {
                    scope.add_var(params[k].name(), param_tys[k]);
                    proof {
                        assert(scope@ =~= param_scope(params@, param_tys@).take(k as int + 1));
                    }
                    k += 1;
                }
                proof {
                    assert(scope@ =~= param_scope(params@, param_tys@));
                    assert forall|x: int| 0 <= x < scope@.len() implies (
                    #[trigger] scope@[x]).ty.0 < self.ty_context@.len() by {}
                }
                match self.resolve_stmt_block(&mut scope, body, ret_ty) {
                    Ok(u) => Ok(()),
                    Err(err) => Err(err),
                }
            },
        }
    }
}

} // verus!
