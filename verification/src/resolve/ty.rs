//! The type table: canonical type descriptors (`Ty`) interned behind small
//! dense handles (`TyId`) and deduplicated up to structural equality, so that
//! handle equality decides type equality in O(1). Struct descriptors are the
//! deliberate exception: every struct declaration keeps a fresh handle, even
//! when its field list matches another struct's.

use vstd::prelude::*;

use crate::ast::Ident;
use crate::util::P;

verus! {

/// Handle into the type table.
#[derive(Copy, Clone, PartialEq, Eq, Structural, Debug)]
pub struct TyId(pub usize);

/// Width and signedness of an integer type.
#[derive(Copy, Clone, PartialEq, Eq, Structural, Debug)]
pub enum IntKind {
    U8,
    U16,
    U32,
    U64,
    S8,
    S16,
    S32,
    S64,
}

/// One named field of a struct type, with its resolved type handle.
#[derive(Copy, Clone, PartialEq, Eq, Structural, Debug)]
pub struct StructField {
    pub name: Ident,
    pub ty: TyId,
}

impl StructField {
    pub fn new(name: Ident, ty: TyId) -> (r: Self)
        ensures
            r == (StructField { name, ty }),
    {
        Self { name, ty }
    }
}

/// The canonical shape of one type. Component types are referenced by handle,
/// never inlined, so descriptors form a flat arena rather than a tree.
pub enum TyKind {
    Int(IntKind),
    Ptr(TyId),
    Void,
    Array { base: TyId, count: usize },
    Struct { fields: Vec<StructField> },
    Function { params: Vec<TyId>, return_type: TyId },
}

pub struct Ty {
    pub kind: TyKind,
}

impl Ty {
    pub fn integer(kind: IntKind) -> (r: P<Ty>)
        ensures
            r@ == (Ty { kind: TyKind::Int(kind) }),
    {
        P::new(Box::new(Ty { kind: TyKind::Int(kind) }))
    }

    pub fn ptr(base: TyId) -> (r: P<Ty>)
        ensures
            r@ == (Ty { kind: TyKind::Ptr(base) }),
    {
        P::new(Box::new(Ty { kind: TyKind::Ptr(base) }))
    }

    pub fn void() -> (r: P<Ty>)
        ensures
            r@ == (Ty { kind: TyKind::Void }),
    {
        P::new(Box::new(Ty { kind: TyKind::Void }))
    }

    pub fn array(base: TyId, count: usize) -> (r: P<Ty>)
        ensures
            r@ == (Ty { kind: TyKind::Array { base, count } }),
    {
        P::new(Box::new(Ty { kind: TyKind::Array { base, count } }))
    }

    pub fn struct_ty(fields: Vec<StructField>) -> (r: P<Ty>)
        ensures
            r@ == (Ty { kind: TyKind::Struct { fields } }),
    {
        P::new(Box::new(Ty { kind: TyKind::Struct { fields } }))
    }

    pub fn function(params: Vec<TyId>, return_type: TyId) -> (r: P<Ty>)
        ensures
            r@ == (Ty { kind: TyKind::Function { params, return_type } }),
    {
        P::new(Box::new(Ty { kind: TyKind::Function { params, return_type } }))
    }

    pub fn kind(&self) -> (r: &TyKind)
        ensures
            *r == self.kind,
    {
        &self.kind
    }
}

/// Structural equality of two descriptors: same top-level kind and equal
/// component handles, in order. Struct descriptors are never equal, not even
/// to themselves, which is what keeps each struct declaration's handle fresh.
pub open spec fn same_ty(left: Ty, right: Ty) -> bool {
    match (left.kind, right.kind) {
        (TyKind::Int(a), TyKind::Int(b)) => a == b,
        (TyKind::Ptr(a), TyKind::Ptr(b)) => a == b,
        (TyKind::Void, TyKind::Void) => true,
        (
            TyKind::Array { base: b1, count: c1 },
            TyKind::Array { base: b2, count: c2 },
        ) => b1 == b2 && c1 == c2,
        (
            TyKind::Function { params: p1, return_type: r1 },
            TyKind::Function { params: p2, return_type: r2 },
        ) => p1@ == p2@ && r1 == r2,
        _ => false,
    }
}

/// No two table entries are structurally equal.
pub open spec fn distinct_tys(tt: Seq<Ty>) -> bool {
    forall|i: int, j: int|
        0 <= i < tt.len() && 0 <= j < tt.len() && i != j ==> !#[trigger] same_ty(tt[i], tt[j])
}

/// Every handle mentioned by `t` points below `n`.
pub open spec fn ty_comps_valid(t: Ty, n: int) -> bool {
    match t.kind {
        TyKind::Int(_) => true,
        TyKind::Void => true,
        TyKind::Ptr(b) => b.0 < n,
        TyKind::Array { base, count: _ } => base.0 < n,
        TyKind::Struct { fields } => forall|k: int|
            0 <= k < fields@.len() ==> (#[trigger] fields@[k]).ty.0 < n,
        TyKind::Function { params, return_type } => return_type.0 < n && forall|k: int|
            0 <= k < params@.len() ==> (#[trigger] params@[k]).0 < n,
    }
}

/// Every entry's components point into the table.
pub open spec fn tys_valid(tt: Seq<Ty>) -> bool {
    forall|i: int| 0 <= i < tt.len() ==> ty_comps_valid(#[trigger] tt[i], tt.len() as int)
}

/// Well-formedness of the table: deduplicated and internally closed.
pub open spec fn table_wf(tt: Seq<Ty>) -> bool {
    distinct_tys(tt) && tys_valid(tt)
}

/// Whether some entry is structurally equal to `t`.
pub open spec fn ty_found(tt: Seq<Ty>, t: Ty) -> bool {
    exists|i: int| 0 <= i < tt.len() && same_ty(#[trigger] tt[i], t)
}

/// The handle interning `t` yields: the matching entry's index when one
/// exists (unique, by `distinct_tys`), else the next fresh index.
pub open spec fn intern_ty_id(tt: Seq<Ty>, t: Ty) -> int {
    if ty_found(tt, t) {
        choose|i: int| 0 <= i < tt.len() && same_ty(#[trigger] tt[i], t)
    } else {
        tt.len() as int
    }
}

/// The table after interning `t`: unchanged on a hit, extended by `t` on a
/// miss.
pub open spec fn intern_ty_table(tt: Seq<Ty>, t: Ty) -> Seq<Ty> {
    if ty_found(tt, t) {
        tt
    } else {
        tt.push(t)
    }
}

pub proof fn lemma_same_ty_sym(a: Ty, b: Ty)
    ensures
        same_ty(a, b) == same_ty(b, a),
{
}

pub proof fn lemma_same_ty_trans(a: Ty, b: Ty, c: Ty)
    requires
        same_ty(a, b),
        same_ty(b, c),
    ensures
        same_ty(a, c),
{
}

/// In a deduplicated table the matching entry for `t` is unique.
pub proof fn lemma_ty_found_unique(tt: Seq<Ty>, t: Ty, i: int, j: int)
    requires
        distinct_tys(tt),
        0 <= i < tt.len(),
        0 <= j < tt.len(),
        same_ty(tt[i], t),
        same_ty(tt[j], t),
    ensures
        i == j,
{
    if i != j {
        lemma_same_ty_sym(tt[j], t);
        lemma_same_ty_trans(tt[i], t, tt[j]);
    }
}

/// Law: interning a descriptor structurally equal to an already-interned one
/// returns the same handle and leaves the table unchanged. This is the
/// "stable across repeated interning" half of handle identity.
pub proof fn lemma_intern_ty_stable(tt: Seq<Ty>, t1: Ty, t2: Ty)
    requires
        distinct_tys(tt),
        same_ty(t1, t2),
    ensures
        intern_ty_id(intern_ty_table(tt, t1), t2) == intern_ty_id(tt, t1),
        intern_ty_table(intern_ty_table(tt, t1), t2) == intern_ty_table(tt, t1),
{
    lemma_same_ty_sym(t1, t2);
    if ty_found(tt, t1) {
        let i1 = choose|i: int| 0 <= i < tt.len() && same_ty(#[trigger] tt[i], t1);
        lemma_same_ty_trans(tt[i1], t1, t2);
        assert(ty_found(tt, t2));
        let i2 = choose|i: int| 0 <= i < tt.len() && same_ty(#[trigger] tt[i], t2);
        lemma_same_ty_trans(tt[i2], t2, t1);
        lemma_ty_found_unique(tt, t1, i1, i2);
    } else {
        let tt1 = tt.push(t1);
        assert(same_ty(tt1[tt.len() as int], t2));
        assert(ty_found(tt1, t2));
        let i2 = choose|i: int| 0 <= i < tt1.len() && same_ty(#[trigger] tt1[i], t2);
        if i2 < tt.len() {
            lemma_same_ty_trans(tt[i2], t2, t1);
            assert(ty_found(tt, t1));
            assert(false);
        }
    }
}

/// Law: structurally different descriptors intern to different handles.
pub proof fn lemma_intern_ty_distinct(tt: Seq<Ty>, t1: Ty, t2: Ty)
    requires
        distinct_tys(tt),
        !same_ty(t1, t2),
    ensures
        intern_ty_id(intern_ty_table(tt, t1), t2) != intern_ty_id(tt, t1),
{
    lemma_same_ty_sym(t1, t2);
    let i1 = intern_ty_id(tt, t1);
    let tt1 = intern_ty_table(tt, t1);
    let i2 = intern_ty_id(tt1, t2);
    if ty_found(tt1, t2) {
        let w2 = choose|i: int| 0 <= i < tt1.len() && same_ty(#[trigger] tt1[i], t2);
        if i1 == i2 {
            if ty_found(tt, t1) {
                // tt1 == tt and same_ty(tt[i1], t1)
                lemma_same_ty_sym(tt[i1], t1);
                lemma_same_ty_trans(t1, tt[i1], t2);
            } else {
                // tt1 == tt.push(t1), i1 == tt.len(), entry is t1 itself
                assert(tt1[i1] == t1);
            }
            assert(false);
        }
    } else {
        // t2 takes the fresh index of tt1, which lies past i1
        assert(i1 < tt1.len());
    }
}

/// Law: a function descriptor's handle is sensitive to arity, parameter
/// order, parameter types, and return type — interning two function
/// descriptors yields the same handle exactly when their parameter handle
/// sequences and return handles agree.
pub proof fn lemma_function_ty_identity(tt: Seq<Ty>, t1: Ty, t2: Ty)
    requires
        distinct_tys(tt),
        t1.kind is Function,
        t2.kind is Function,
    ensures
        intern_ty_id(intern_ty_table(tt, t1), t2) == intern_ty_id(tt, t1) <==> (
        t1.kind->Function_params@ == t2.kind->Function_params@
            && t1.kind->Function_return_type == t2.kind->Function_return_type),
{
    if t1.kind->Function_params@ == t2.kind->Function_params@
        && t1.kind->Function_return_type == t2.kind->Function_return_type {
        assert(same_ty(t1, t2));
        lemma_intern_ty_stable(tt, t1, t2);
    } else {
        assert(!same_ty(t1, t2));
        lemma_intern_ty_distinct(tt, t1, t2);
    }
}

/// Law (interning identity for types): interning descriptor `t1` and then
/// `t2` yields equal handles exactly when the two descriptors are
/// structurally equal.
pub proof fn lemma_intern_ty_identity(tt: Seq<Ty>, t1: Ty, t2: Ty)
    requires
        distinct_tys(tt),
    ensures
        intern_ty_id(intern_ty_table(tt, t1), t2) == intern_ty_id(tt, t1) <==> same_ty(t1, t2),
{
    if same_ty(t1, t2) {
        lemma_intern_ty_stable(tt, t1, t2);
    } else {
        lemma_intern_ty_distinct(tt, t1, t2);
    }
}

/// The type table. Append-only apart from `set_struct_fields`, which fills in
/// the field list of a struct entry created as a placeholder.
pub struct Context {
    type_table: Vec<P<Ty>>,
}

impl View for Context {
    type V = Seq<Ty>;

    closed spec fn view(&self) -> Seq<Ty> {
        self.type_table@.map_values(|p: P<Ty>| p@)
    }
}

impl Context {
    pub fn new() -> (r: Self)
        ensures
            r@ == Seq::<Ty>::empty(),
    {
        let r = Self { type_table: Vec::new() };
        proof {
            assert(r@ =~= Seq::<Ty>::empty());
        }
        r
    }

    /// Intern `typ`: return the handle of the structurally equal entry when
    /// one exists, else append `typ` and return its fresh handle.
    #[verifier::loop_isolation(false)]
    pub fn add_type(&mut self, typ: P<Ty>) -> (r: TyId)
        requires
            table_wf(old(self)@),
            ty_comps_valid(typ@, old(self)@.len() as int),
        ensures
            table_wf(final(self)@),
            final(self)@ == intern_ty_table(old(self)@, typ@),
            r.0 == intern_ty_id(old(self)@, typ@),
            r.0 < final(self)@.len(),
            ty_found(old(self)@, typ@) ==> final(self)@ == old(self)@
                && same_ty(final(self)@[r.0 as int], typ@),
            !ty_found(old(self)@, typ@) ==> final(self)@ == old(self)@.push(typ@)
                && r.0 == old(self)@.len(),
    {
        let n = self.type_table.len();
        let mut index: usize = 0;
        while index < n
            invariant
                *self == *old(self),
                n == self@.len(),
                index <= n,
                forall|k: int| 0 <= k < index ==> !same_ty(#[trigger] self@[k], typ@),
            decreases n - index,
        {
            if self.same_typ(&self.type_table[index], &typ) {
                proof {
                    assert(same_ty(self@[index as int], typ@));
                    assert(ty_found(old(self)@, typ@));
                    let w = choose|i: int|
                        0 <= i < old(self)@.len() && same_ty(#[trigger] old(self)@[i], typ@);
                    lemma_ty_found_unique(old(self)@, typ@, w, index as int);
                }
                return TyId(index);
            }
            index += 1;
        }
        proof {
            assert(!ty_found(old(self)@, typ@));
        }
        let index = self.type_table.len();
        self.type_table.push(typ);
        proof {
            assert(self@ =~= old(self)@.push(typ@));
            assert forall|i: int| 0 <= i < self@.len() implies ty_comps_valid(
                #[trigger] self@[i],
                self@.len() as int,
            ) by {
                if i < old(self)@.len() {
                    lemma_ty_comps_valid_mono(self@[i], old(self)@.len() as int, self@.len() as int);
                } else {
                    lemma_ty_comps_valid_mono(typ@, old(self)@.len() as int, self@.len() as int);
                }
            }
            assert forall|i: int, j: int|
                0 <= i < self@.len() && 0 <= j < self@.len() && i != j implies !#[trigger] same_ty(
                self@[i],
                self@[j],
            ) by {
                if j == old(self)@.len() && i < j {
                    lemma_same_ty_sym(self@[i], self@[j]);
                } else if i == old(self)@.len() && j < i {
                    lemma_same_ty_sym(self@[i], self@[j]);
                }
            }
        }
        TyId(index)
    }

    /// Pure lookup of a handle issued by this table.
    pub fn get_type(&self, typ: TyId) -> (r: &P<Ty>)
        requires
            typ.0 < self@.len(),
        ensures
            r@ == self@[typ.0 as int],
    {
        &self.type_table[typ.0]
    }

    /// The number of interned types.
    pub fn len(&self) -> (r: usize)
        ensures
            r == self@.len(),
    {
        self.type_table.len()
    }

    /// Decide structural equality of two descriptors.
    #[verifier::loop_isolation(false)]
    pub fn same_typ(&self, left: &P<Ty>, right: &P<Ty>) -> (r: bool)
        ensures
            r == same_ty(left@, right@),
    {
        // Check if both types are integers of the same kind
        if let TyKind::Int(left_int_kind) = left.get().kind() {
            if let TyKind::Int(right_int_kind) = right.get().kind() {
                return *left_int_kind == *right_int_kind;
            }
        }

        if let TyKind::Ptr(left_base) = left.get().kind() {
            if let TyKind::Ptr(right_base) = right.get().kind() {
                return *left_base == *right_base;
            }
        }

        if let TyKind::Void = left.get().kind() {
            if let TyKind::Void = right.get().kind() {
                return true;
            }
        }

        if let TyKind::Array { base: left_base, count: left_count } = left.get().kind() {
            if let TyKind::Array { base: right_base, count: right_count } = right.get().kind() {
                if *left_base != *right_base {
                    return false;
                }

                if *left_count != *right_count {
                    return false;
                }

                return true;
            }
        }

        if let TyKind::Function { params: left_params, return_type: left_return_type } = left
            .get()
            .kind() {
            if let TyKind::Function { params: right_params, return_type: right_return_type } = right
                .get()
                .kind() {
                if left_params.len() != right_params.len() {
                    return false;
                }

                if *left_return_type != *right_return_type {
                    return false;
                }

                let mut i: usize = 0;
                while i < left_params.len()
                    invariant
                        i <= left_params@.len(),
                        left_params@.len() == right_params@.len(),
                        forall|j: int| 0 <= j < i ==> left_params@[j] == right_params@[j],
                    decreases left_params@.len() - i,
                {
                    if left_params[i] != right_params[i] {
                        return false;
                    }
                    i += 1;
                }
                proof {
                    assert(left_params@ =~= right_params@);
                }
                return true;
            }
        }

        false
    }

    /// Fill in the field list of a struct entry that was interned as a
    /// placeholder while its declaration was still being resolved. Struct
    /// entries are never structurally compared, so deduplication is
    /// unaffected.
    pub fn set_struct_fields(&mut self, id: TyId, fields: Vec<StructField>)
        requires
            table_wf(old(self)@),
            id.0 < old(self)@.len(),
            old(self)@[id.0 as int].kind is Struct,
            forall|k: int| 0 <= k < fields@.len() ==> (#[trigger] fields@[k]).ty.0 < old(
                self,
            )@.len(),
        ensures
            table_wf(final(self)@),
            final(self)@ == old(self)@.update(
                id.0 as int,
                (Ty { kind: TyKind::Struct { fields } }),
            ),
    {
        let ghost fields_v = fields@;
        let new_entry = P::new(Box::new(Ty { kind: TyKind::Struct { fields } }));
        self.type_table.set(id.0, new_entry);
        proof {
            let nt = Ty { kind: TyKind::Struct { fields: fields } };
            assert(self@ =~= old(self)@.update(id.0 as int, nt));
            assert forall|i: int, j: int|
                0 <= i < self@.len() && 0 <= j < self@.len() && i != j implies !#[trigger] same_ty(
                self@[i],
                self@[j],
            ) by {
                if i == id.0 as int || j == id.0 as int {
                    assert(!same_ty(self@[i], self@[j]));
                }
            }
        }
    }
}

proof fn lemma_ty_comps_valid_mono(t: Ty, n1: int, n2: int)
    requires
        ty_comps_valid(t, n1),
        n1 <= n2,
    ensures
        ty_comps_valid(t, n2),
{
}

} // verus!
