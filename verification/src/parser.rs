//! Identifier interning and AST construction from a parse tree.
//!
//! The concrete grammar lives outside this crate: an external parser turns
//! source text into a tree of tagged nodes (rule kind, matched text, span,
//! children), and this module builds the AST from that shape.

use vstd::prelude::*;

use crate::ast::{BinaryOp, Decl, DeclKind, Expr, ExprKind, FunctionParam, Ident, Span, Stmt, StmtBlock, StmtKind, Typespec, TypespecKind};
use crate::util::P;

verus! {

/// No two interned spellings are equal.
pub open spec fn distinct_idents(tbl: Seq<Seq<char>>) -> bool {
    forall|i: int, j: int|
        0 <= i < tbl.len() && 0 <= j < tbl.len() && i != j ==> #[trigger] tbl[i] != #[trigger] tbl[j]
}

/// Whether `s` is already interned.
pub open spec fn ident_found(tbl: Seq<Seq<char>>, s: Seq<char>) -> bool {
    exists|i: int| 0 <= i < tbl.len() && #[trigger] tbl[i] == s
}

/// The handle interning `s` yields: the matching entry's index when one
/// exists (unique, by `distinct_idents`), else the next fresh index.
pub open spec fn intern_ident_id(tbl: Seq<Seq<char>>, s: Seq<char>) -> int {
    if ident_found(tbl, s) {
        choose|i: int| 0 <= i < tbl.len() && #[trigger] tbl[i] == s
    } else {
        tbl.len() as int
    }
}

/// The table after interning `s`: unchanged on a hit, extended on a miss.
pub open spec fn intern_ident_table(tbl: Seq<Seq<char>>, s: Seq<char>) -> Seq<Seq<char>> {
    if ident_found(tbl, s) {
        tbl
    } else {
        tbl.push(s)
    }
}

/// Law (interning identity): immediately after interning text `a` and then
/// text `b`, the two handles are equal exactly when the texts are equal.
pub proof fn lemma_intern_ident_identity(tbl: Seq<Seq<char>>, a: Seq<char>, b: Seq<char>)
    requires
        distinct_idents(tbl),
    ensures
        intern_ident_id(intern_ident_table(tbl, a), b) == intern_ident_id(tbl, a) <==> a == b,
{
    let ia = intern_ident_id(tbl, a);
    let tbl1 = intern_ident_table(tbl, a);
    let ib = intern_ident_id(tbl1, b);
    // the entry at `ia` spells `a` in either case
    if ident_found(tbl, a) {
        assert(tbl1[ia] == a);
    } else {
        assert(tbl1[ia] == a);
    }
    if a == b {
        assert(ident_found(tbl1, b));
        let w = choose|i: int| 0 <= i < tbl1.len() && #[trigger] tbl1[i] == b;
        if ident_found(tbl, a) {
            // both indices point at entries spelling `a` in a duplicate-free table
            assert(tbl1[w] == tbl1[ia]);
        } else {
            if w < tbl.len() {
                assert(ident_found(tbl, a));
                assert(false);
            }
        }
    } else {
        if ib == ia {
            if ident_found(tbl1, b) {
                assert(tbl1[ib] == b);
                assert(false);
            } else {
                assert(ia < tbl1.len());
                assert(false);
            }
        }
    }
}

/// The identifier interner: maps each spelling seen so far to a small dense
/// handle, never reassigning a handle once issued. Its view is the sequence
/// of interned spellings, indexed by handle.
#[derive(Debug)]
pub struct Context {
    ident_table: Vec<String>,
}

impl View for Context {
    type V = Seq<Seq<char>>;

    closed spec fn view(&self) -> Seq<Seq<char>> {
        self.ident_table@.map_values(|s: String| s@)
    }
}

impl Context {
    pub fn new() -> (r: Self)
        ensures
            r@ == Seq::<Seq<char>>::empty(),
    {
        let r = Self { ident_table: Vec::new() };
        proof {
            assert(r@ =~= Seq::<Seq<char>>::empty());
        }
        r
    }

    /// Intern a spelling: return the existing handle when `ident` was seen
    /// before, else record it under a fresh handle.
    #[verifier::loop_isolation(false)]
    pub fn add_ident(&mut self, ident: &str) -> (r: Ident)
        requires
            distinct_idents(old(self)@),
        ensures
            distinct_idents(final(self)@),
            final(self)@ == intern_ident_table(old(self)@, ident@),
            r.0 == intern_ident_id(old(self)@, ident@),
            r.0 < final(self)@.len(),
            final(self)@[r.0 as int] == ident@,
            ident_found(old(self)@, ident@) ==> final(self)@ == old(self)@,
            !ident_found(old(self)@, ident@) ==> final(self)@ == old(self)@.push(ident@)
                && r.0 == old(self)@.len(),
    {
        let key: String = ident.to_owned();
        let mut has_ident: Option<usize> = None;
        let n = self.ident_table.len();
        let mut index: usize = 0;
        while index < n
            invariant
                *self == *old(self),
                index <= n,
                n == self@.len(),
                key@ == ident@,
                match has_ident {
                    Some(i) => i < n && self@[i as int] == ident@,
                    None => forall|k: int| 0 <= k < index ==> #[trigger] self@[k] != ident@,
                },
            decreases n - index,
        {
            if self.ident_table[index] == key {
                has_ident = Some(index);
            }
            index += 1;
        }

        if let Some(index) = has_ident {
            proof {
                assert(ident_found(old(self)@, ident@));
                let w = choose|i: int|
                    0 <= i < old(self)@.len() && #[trigger] old(self)@[i] == ident@;
                assert(old(self)@[w] == old(self)@[index as int]);
            }
            Ident::new(index)
        } else {
            let index = self.ident_table.len();
            self.ident_table.push(key);
            proof {
                assert(!ident_found(old(self)@, ident@));
                assert(self@ =~= old(self)@.push(ident@));
            }
            Ident::new(index)
        }
    }

    /// Spelling of a handle issued by this interner.
    pub fn ident(&self, ident: Ident) -> (r: &String)
        requires
            ident.0 < self@.len(),
        ensures
            r@ == self@[ident.0 as int],
    {
        &self.ident_table[ident.0]
    }
}


// ------------------------------------------------------------------
// The parse tree handed over by the external grammar
// ------------------------------------------------------------------

/// Rule tag of one parse-tree node, mirroring the external grammar's rules.
#[derive(Copy, Clone, PartialEq, Eq, Structural, Debug)]
pub enum ParseRule {
    File,
    Decl,
    FuncDecl,
    FuncParamList,
    FuncParam,
    FuncReturnType,
    Block,
    StmtList,
    Stmt,
    StmtVar,
    StmtRet,
    StmtExpr,
    Expr,
    Integer,
    Ident,
    StringLit,
    Base,
    FuncCall,
    ArgList,
    ArrayIndex,
    Typespec,
    BaseTypespec,
    Pointer,
    OpMultiply,
    OpDivide,
    OpAdd,
    OpMinus,
    OpLessThan,
    OpLessThanEqual,
    OpGreaterThan,
    OpGreaterThanEqual,
    OpEqual,
    OpNotEqual,
    OpAnd,
    OpOr,
}

/// One node of the parse tree: its rule tag, the matched text, its source
/// extent, and its ordered children. The external parser produces this
/// shape; the builder below consumes it.
pub struct ParseTree {
    pub rule: ParseRule,
    pub text: String,
    pub span: Span,
    pub children: Vec<ParseTree>,
}

/// Why AST construction failed.
#[derive(Copy, Clone, PartialEq, Eq, Structural, Debug)]
pub enum BuildError {
    /// A node's rule tag or child shape does not match the grammar's shape.
    MalformedTree,
    /// An integer literal does not consist of decimal digits or exceeds the
    /// unsigned 64-bit range.
    BadIntegerLiteral,
}

// ------------------------------------------------------------------
// Decimal integer literals
// ------------------------------------------------------------------

pub open spec fn is_dec_digit(c: char) -> bool {
    '0' as u32 <= c as u32 && c as u32 <= '9' as u32
}

pub open spec fn all_dec_digits(s: Seq<char>) -> bool {
    forall|i: int| 0 <= i < s.len() ==> is_dec_digit(#[trigger] s[i])
}

/// The value of a decimal digit string.
pub open spec fn dec_value(s: Seq<char>) -> nat
    decreases s.len(),
{
    if s.len() == 0 {
        0
    } else {
        (dec_value(s.drop_last()) * 10 + (s.last() as u32 - '0' as u32)) as nat
    }
}

proof fn lemma_dec_value_take_le(s: Seq<char>, j: int)
    requires
        all_dec_digits(s),
        0 <= j <= s.len(),
    ensures
        dec_value(s.take(j)) <= dec_value(s),
    decreases s.len() - j,
{
    if j < s.len() {
        lemma_dec_value_take_le(s, j + 1);
        assert(s.take(j + 1).drop_last() =~= s.take(j));
        assert(s.take(j + 1).last() == s[j]);
        assert(dec_value(s.take(j)) <= dec_value(s.take(j)) * 10 + (s[j] as u32 - '0' as u32));
    } else {
        assert(s.take(j) =~= s);
    }
}

/// Parse an unsigned 64-bit decimal literal: the digits' value when the text
/// is a nonempty digit string whose value fits, else nothing.
#[verifier::loop_isolation(false)]
pub fn parse_u64_decimal(s: &str) -> (r: Option<u64>)
    ensures
        r matches Some(v) ==> s@.len() > 0 && all_dec_digits(s@) && v == dec_value(s@),
        r is None ==> s@.len() == 0 || !all_dec_digits(s@) || dec_value(s@) > u64::MAX,
{
    let n = s.unicode_len();
    if n == 0 {
        return None;
    }
    let mut v: u64 = 0;
    let mut i: usize = 0;
    while i < n
        invariant
            i <= n,
            n == s@.len(),
            all_dec_digits(s@.take(i as int)),
            v == dec_value(s@.take(i as int)),
        decreases n - i,
    {
        let c = s.get_char(i);
        let cv = c as u32;
        if cv < '0' as u32 || cv > '9' as u32 {
            return None;
        }
        let d = (cv - '0' as u32) as u64;
        if v > (u64::MAX - d) / 10 {
            proof {
                assert(all_dec_digits(s@.take(i as int + 1))) by {
                    assert(forall|k: int|
                        0 <= k < i + 1 ==> s@.take(i as int + 1)[k] == s@[k]);
                }
                assert(s@.take(i as int + 1).drop_last() =~= s@.take(i as int));
                assert(dec_value(s@.take(i as int + 1)) > u64::MAX);
                if all_dec_digits(s@) {
                    lemma_dec_value_take_le(s@, i as int + 1);
                }
            }
            return None;
        }
        proof {
            assert(s@.take(i as int + 1).drop_last() =~= s@.take(i as int));
            assert(s@.take(i as int + 1).last() == s@[i as int]);
        }
        v = v * 10 + d;
        i += 1;
    }
    proof {
        assert(s@.take(n as int) =~= s@);
    }
    Some(v)
}

// ------------------------------------------------------------------
// Operator tiers and precedence parsing
// ------------------------------------------------------------------

/// The binary operator named by an operator rule tag, if any.
pub open spec fn rule_op(r: ParseRule) -> Option<BinaryOp> {
    match r {
        ParseRule::OpMultiply => Some(BinaryOp::Multiply),
        ParseRule::OpDivide => Some(BinaryOp::Divide),
        ParseRule::OpAdd => Some(BinaryOp::Add),
        ParseRule::OpMinus => Some(BinaryOp::Minus),
        ParseRule::OpLessThan => Some(BinaryOp::LessThan),
        ParseRule::OpLessThanEqual => Some(BinaryOp::LessThanEqual),
        ParseRule::OpGreaterThan => Some(BinaryOp::GreaterThan),
        ParseRule::OpGreaterThanEqual => Some(BinaryOp::GreaterThanEqual),
        ParseRule::OpEqual => Some(BinaryOp::Equal),
        ParseRule::OpNotEqual => Some(BinaryOp::NotEqual),
        ParseRule::OpAnd => Some(BinaryOp::And),
        ParseRule::OpOr => Some(BinaryOp::Or),
        _ => None,
    }
}

fn rule_op_exec(r: ParseRule) -> (o: Option<BinaryOp>)
    ensures
        o == rule_op(r),
{
    match r {
        ParseRule::OpMultiply => Some(BinaryOp::Multiply),
        ParseRule::OpDivide => Some(BinaryOp::Divide),
        ParseRule::OpAdd => Some(BinaryOp::Add),
        ParseRule::OpMinus => Some(BinaryOp::Minus),
        ParseRule::OpLessThan => Some(BinaryOp::LessThan),
        ParseRule::OpLessThanEqual => Some(BinaryOp::LessThanEqual),
        ParseRule::OpGreaterThan => Some(BinaryOp::GreaterThan),
        ParseRule::OpGreaterThanEqual => Some(BinaryOp::GreaterThanEqual),
        ParseRule::OpEqual => Some(BinaryOp::Equal),
        ParseRule::OpNotEqual => Some(BinaryOp::NotEqual),
        ParseRule::OpAnd => Some(BinaryOp::And),
        ParseRule::OpOr => Some(BinaryOp::Or),
        _ => None,
    }
}

/// Left-associative precedence tiers, loosest first: `or` < `and` <
/// equality < comparison < additive < multiplicative.
pub open spec fn op_prec(op: BinaryOp) -> u32 {
    match op {
        BinaryOp::Or => 1,
        BinaryOp::And => 2,
        BinaryOp::Equal => 3,
        BinaryOp::NotEqual => 3,
        BinaryOp::LessThan => 4,
        BinaryOp::LessThanEqual => 4,
        BinaryOp::GreaterThan => 4,
        BinaryOp::GreaterThanEqual => 4,
        BinaryOp::Add => 5,
        BinaryOp::Minus => 5,
        BinaryOp::Multiply => 6,
        BinaryOp::Divide => 6,
    }
}

fn op_prec_exec(op: BinaryOp) -> (p: u32)
    ensures
        p == op_prec(op),
{
    match op {
        BinaryOp::Or => 1,
        BinaryOp::And => 2,
        BinaryOp::Equal => 3,
        BinaryOp::NotEqual => 3,
        BinaryOp::LessThan => 4,
        BinaryOp::LessThanEqual => 4,
        BinaryOp::GreaterThan => 4,
        BinaryOp::GreaterThanEqual => 4,
        BinaryOp::Add => 5,
        BinaryOp::Minus => 5,
        BinaryOp::Multiply => 6,
        BinaryOp::Divide => 6,
    }
}

/// The operator the expression splits at: the rightmost operator of the
/// loosest tier present. Splitting there, recursively, builds exactly the
/// tree that left-associative precedence climbing builds.
pub open spec fn split_index(ops: Seq<BinaryOp>) -> int
    decreases ops.len(),
{
    if ops.len() <= 1 {
        0
    } else {
        let r = split_index(ops.drop_last());
        if op_prec(ops.last()) <= op_prec(ops[r]) {
            ops.len() - 1
        } else {
            r
        }
    }
}

proof fn lemma_split_index_range(ops: Seq<BinaryOp>)
    requires
        ops.len() >= 1,
    ensures
        0 <= split_index(ops) < ops.len(),
    decreases ops.len(),
{
    if ops.len() > 1 {
        lemma_split_index_range(ops.drop_last());
    }
}

/// `e` is the expression tree that binary-expression construction yields
/// from the given operand/operator stream: with no operators, the single
/// operand; otherwise a binary node on the split operator whose sides parse
/// the two sub-streams, spanning its outermost operands.
pub open spec fn is_prec_parse(operands: Seq<P<Expr>>, ops: Seq<BinaryOp>, e: Expr) -> bool
    decreases ops.len(),
{
    if operands.len() != ops.len() + 1 {
        false
    } else if ops.len() == 0 {
        e == *operands[0].ptr
    } else {
        let k = split_index(ops);
        if !(0 <= k < ops.len()) {
            false
        } else {
            match e.kind {
                ExprKind::Binary { op, left, right } => {
                    &&& op == ops[k]
                    &&& is_prec_parse(operands.take(k + 1), ops.take(k), *left.ptr)
                    &&& is_prec_parse(operands.skip(k + 1), ops.skip(k + 1), *right.ptr)
                    &&& e.span == (Span {
                        start: (*left.ptr).span.start,
                        end: (*right.ptr).span.end,
                    })
                },
                _ => false,
            }
        }
    }
}

/// Rightmost loosest operator in `ops`.
#[verifier::loop_isolation(false)]
fn find_split(ops: &Vec<BinaryOp>) -> (k: usize)
    requires
        ops@.len() >= 1,
    ensures
        k < ops@.len(),
        k == split_index(ops@),
{
    let mut best: usize = 0;
    let mut i: usize = 1;
    while i < ops.len()
        invariant
            1 <= i <= ops@.len(),
            best < i,
            best == split_index(ops@.take(i as int)),
        decreases ops@.len() - i,
    {
        if op_prec_exec(ops[i]) <= op_prec_exec(ops[best]) {
            best = i;
        }
        proof {
            assert(ops@.take(i as int + 1).drop_last() =~= ops@.take(i as int));
            assert(ops@.take(i as int + 1).last() == ops@[i as int]);
        }
        i += 1;
    }
    proof {
        assert(ops@.take(ops@.len() as int) =~= ops@);
    }
    best
}

/// Build the binary-expression tree for an operand/operator stream.
#[verifier::rlimit(100)]
fn build_prec(operands: Vec<P<Expr>>, ops: Vec<BinaryOp>) -> (r: P<Expr>)
    requires
        operands@.len() == ops@.len() + 1,
    ensures
        is_prec_parse(operands@, ops@, r@),
    decreases ops@.len(),
{
    let mut operands = operands;
    let mut ops = ops;
    if ops.len() == 0 {
        let e = operands.pop().unwrap();
        e
    } else {
        let ghost operands0 = operands@;
        let ghost ops0 = ops@;
        proof {
            lemma_split_index_range(ops@);
        }
        let k = find_split(&ops);
        let right_operands = operands.split_off(k + 1);
        let right_ops = ops.split_off(k + 1);
        let op = ops.pop().unwrap();
        proof {
            assert(operands@ =~= operands0.take(k as int + 1));
            assert(right_operands@ =~= operands0.skip(k as int + 1));
            assert(ops@ =~= ops0.take(k as int));
            assert(right_ops@ =~= ops0.skip(k as int + 1));
        }
        let left = build_prec(operands, ops);
        let right = build_prec(right_operands, right_ops);
        let span = Span::new(left.get().span().start(), right.get().span().end());
        Expr::binary(span, op, left, right)
    }
}


// ------------------------------------------------------------------
// Built-AST relations: what each build function returns, stated against the
// interner as it stands when the build finishes
// ------------------------------------------------------------------

/// `id` is the handle of `text` in the interner.
pub open spec fn interned_as(pc: Seq<Seq<char>>, text: Seq<char>, id: Ident) -> bool {
    id.0 < pc.len() && pc[id.0 as int] == text
}

/// The interner has only grown.
pub open spec fn interner_extends(new: Seq<Seq<char>>, old: Seq<Seq<char>>) -> bool {
    old.is_prefix_of(new)
}

pub open spec fn built_base_typespec(pc: Seq<Seq<char>>, node: ParseTree, ts: Typespec) -> bool {
    &&& node.rule == ParseRule::BaseTypespec
    &&& node.children@.len() == 1
    &&& node.children@[0].rule == ParseRule::Ident
    &&& ts.span == node.span
    &&& match ts.kind {
        TypespecKind::Name(id) => interned_as(pc, node.children@[0].text@, id),
        _ => false,
    }
}

/// `ts` is `depth` pointer layers (each spanning the whole written type)
/// around the base type reference.
pub open spec fn ptr_wrapped(
    pc: Seq<Seq<char>>,
    base: ParseTree,
    span: Span,
    depth: nat,
    ts: Typespec,
) -> bool
    decreases depth,
{
    if depth == 0 {
        built_base_typespec(pc, base, ts)
    } else {
        &&& ts.span == span
        &&& match ts.kind {
            TypespecKind::Ptr(inner) => ptr_wrapped(pc, base, span, (depth - 1) as nat, *inner.ptr),
            _ => false,
        }
    }
}

pub open spec fn built_typespec(pc: Seq<Seq<char>>, node: ParseTree, ts: Typespec) -> bool {
    &&& node.rule == ParseRule::Typespec
    &&& if node.children@.len() == 1 {
        built_base_typespec(pc, node.children@[0], ts)
    } else if node.children@.len() == 2 {
        &&& node.children@[1].rule == ParseRule::Pointer
        &&& ptr_wrapped(pc, node.children@[0], node.span, node.children@[1].text@.len(), ts)
    } else {
        false
    }
}

pub open spec fn wf_base_typespec(node: ParseTree) -> bool {
    &&& node.rule == ParseRule::BaseTypespec
    &&& node.children@.len() == 1
    &&& node.children@[0].rule == ParseRule::Ident
}

pub open spec fn wf_typespec(node: ParseTree) -> bool {
    &&& node.rule == ParseRule::Typespec
    &&& if node.children@.len() == 1 {
        wf_base_typespec(node.children@[0])
    } else if node.children@.len() == 2 {
        wf_base_typespec(node.children@[0]) && node.children@[1].rule == ParseRule::Pointer
    } else {
        false
    }
}

/// Every operator position of an expression's child stream carries an
/// operator rule.
pub open spec fn ops_ok(c: Seq<ParseTree>) -> bool {
    forall|i: int| 0 <= i < c.len() / 2 ==> rule_op((#[trigger] c[2 * i + 1]).rule) is Some
}

/// The operator stream of an expression's children.
pub open spec fn ops_of_children(c: Seq<ParseTree>) -> Seq<BinaryOp> {
    Seq::new((c.len() / 2) as nat, |i: int| rule_op(c[2 * i + 1].rule)->Some_0)
}

pub open spec fn built_primary(pc: Seq<Seq<char>>, node: ParseTree, e: Expr) -> bool
    decreases node, 5int,
{
    match node.rule {
        ParseRule::Integer => {
            &&& e.span == node.span
            &&& node.text@.len() > 0
            &&& all_dec_digits(node.text@)
            &&& dec_value(node.text@) <= u64::MAX
            &&& match e.kind {
                ExprKind::Integer(v) => v == dec_value(node.text@),
                _ => false,
            }
        },
        ParseRule::Ident => {
            &&& e.span == node.span
            &&& match e.kind {
                ExprKind::Ident(id) => interned_as(pc, node.text@, id),
                _ => false,
            }
        },
        ParseRule::StringLit => {
            &&& e.span == node.span
            &&& node.text@.len() >= 2
            &&& match e.kind {
                ExprKind::String(sv) => sv@ == node.text@.subrange(1, node.text@.len() - 1),
                _ => false,
            }
        },
        ParseRule::Expr => built_expr_node(pc, node, e),
        _ => false,
    }
}

pub open spec fn built_operand(pc: Seq<Seq<char>>, node: ParseTree, e: Expr) -> bool
    decreases node, 9int,
{
    &&& node.rule == ParseRule::Base
    &&& if node.children@.len() == 1 {
        built_primary(pc, node.children@[0], e)
    } else if node.children@.len() == 2 {
        let post = node.children@[1];
        if post.rule == ParseRule::FuncCall {
            &&& post.children@.len() == 1
            &&& post.children@[0].rule == ParseRule::ArgList
            &&& e.span == node.span
            &&& match e.kind {
                ExprKind::Call { expr: callee, args } => {
                    &&& built_primary(pc, node.children@[0], *callee.ptr)
                    &&& args@.len() == post.children@[0].children@.len()
                    &&& forall|i: int|
                        0 <= i < args@.len() ==> built_expr_node(
                            pc,
                            post.children@[0].children@[i],
                            *(#[trigger] args@[i]).ptr,
                        )
                },
                _ => false,
            }
        } else if post.rule == ParseRule::ArrayIndex {
            &&& post.children@.len() == 1
            &&& e.span == node.span
            &&& match e.kind {
                ExprKind::Index { expr: base, index } => {
                    &&& built_primary(pc, node.children@[0], *base.ptr)
                    &&& built_expr_node(pc, post.children@[0], *index.ptr)
                },
                _ => false,
            }
        } else {
            false
        }
    } else {
        false
    }
}

/// `e` is the expression built from an expression node: its operands built
/// pointwise from the even children, combined by precedence parsing over the
/// operators in the odd children.
pub open spec fn built_expr_node(pc: Seq<Seq<char>>, node: ParseTree, e: Expr) -> bool
    decreases node, 0int,
{
    &&& node.rule == ParseRule::Expr
    &&& node.children@.len() % 2 == 1
    &&& ops_ok(node.children@)
    &&& exists|operands: Seq<P<Expr>>|
        {
            &&& operands.len() == (node.children@.len() + 1) / 2
            &&& (forall|i: int|
                0 <= i < operands.len() ==> built_operand(
                    pc,
                    node.children@[2 * i],
                    *(#[trigger] operands[i]).ptr,
                ))
            &&& #[trigger] is_prec_parse(operands, ops_of_children(node.children@), e)
        }
}

pub open spec fn wf_primary(node: ParseTree) -> bool
    decreases node, 5int,
{
    match node.rule {
        ParseRule::Integer => node.text@.len() > 0 && all_dec_digits(node.text@) && dec_value(
            node.text@,
        ) <= u64::MAX,
        ParseRule::Ident => true,
        ParseRule::StringLit => node.text@.len() >= 2,
        ParseRule::Expr => wf_expr_node(node),
        _ => false,
    }
}

pub open spec fn wf_operand(node: ParseTree) -> bool
    decreases node, 9int,
{
    &&& node.rule == ParseRule::Base
    &&& if node.children@.len() == 1 {
        wf_primary(node.children@[0])
    } else if node.children@.len() == 2 {
        let post = node.children@[1];
        if post.rule == ParseRule::FuncCall {
            &&& post.children@.len() == 1
            &&& post.children@[0].rule == ParseRule::ArgList
            &&& wf_primary(node.children@[0])
            &&& forall|i: int|
                0 <= i < post.children@[0].children@.len() ==> wf_expr_node(
                    #[trigger] post.children@[0].children@[i],
                )
        } else if post.rule == ParseRule::ArrayIndex {
            &&& post.children@.len() == 1
            &&& wf_primary(node.children@[0])
            &&& wf_expr_node(post.children@[0])
        } else {
            false
        }
    } else {
        false
    }
}

pub open spec fn wf_expr_node(node: ParseTree) -> bool
    decreases node, 0int,
{
    &&& node.rule == ParseRule::Expr
    &&& node.children@.len() % 2 == 1
    &&& ops_ok(node.children@)
    &&& forall|i: int|
        0 <= i < (node.children@.len() + 1) / 2 ==> wf_operand(#[trigger] node.children@[2 * i])
}


pub open spec fn built_stmt(pc: Seq<Seq<char>>, node: ParseTree, st: Stmt) -> bool {
    &&& node.rule == ParseRule::Stmt
    &&& node.children@.len() == 1
    &&& st.span == node.span
    &&& {
        let c = node.children@[0];
        match c.rule {
            ParseRule::StmtVar => {
                &&& (c.children@.len() == 2 || c.children@.len() == 3)
                &&& c.children@[0].rule == ParseRule::Ident
                &&& match st.kind {
                    StmtKind::Var { name, typ, expr } => {
                        &&& interned_as(pc, c.children@[0].text@, name)
                        &&& built_typespec(pc, c.children@[1], *typ.ptr)
                        &&& if c.children@.len() == 3 {
                            match expr {
                                Some(e) => built_expr_node(pc, c.children@[2], *e.ptr),
                                None => false,
                            }
                        } else {
                            expr is None
                        }
                    },
                    _ => false,
                }
            },
            ParseRule::StmtRet => {
                &&& c.children@.len() == 1
                &&& match st.kind {
                    StmtKind::Ret(e) => built_expr_node(pc, c.children@[0], *e.ptr),
                    _ => false,
                }
            },
            ParseRule::StmtExpr => {
                &&& c.children@.len() == 1
                &&& match st.kind {
                    StmtKind::Expr(e) => built_expr_node(pc, c.children@[0], *e.ptr),
                    _ => false,
                }
            },
            _ => false,
        }
    }
}

pub open spec fn built_stmt_list(pc: Seq<Seq<char>>, node: ParseTree, blk: StmtBlock) -> bool {
    &&& node.rule == ParseRule::StmtList
    &&& blk.span == node.span
    &&& blk.stmts@.len() == node.children@.len()
    &&& forall|i: int|
        0 <= i < node.children@.len() ==> built_stmt(
            pc,
            node.children@[i],
            *(#[trigger] blk.stmts@[i]).ptr,
        )
}

pub open spec fn built_block(pc: Seq<Seq<char>>, node: ParseTree, blk: StmtBlock) -> bool {
    &&& node.rule == ParseRule::Block
    &&& node.children@.len() == 1
    &&& built_stmt_list(pc, node.children@[0], blk)
}

pub open spec fn built_param(pc: Seq<Seq<char>>, node: ParseTree, p: FunctionParam) -> bool {
    &&& node.rule == ParseRule::FuncParam
    &&& node.children@.len() == 2
    &&& node.children@[0].rule == ParseRule::Ident
    &&& p.span == node.span
    &&& interned_as(pc, node.children@[0].text@, p.name)
    &&& built_typespec(pc, node.children@[1], *p.ty.ptr)
}

pub open spec fn built_func_decl(pc: Seq<Seq<char>>, node: ParseTree, d: Decl) -> bool {
    &&& node.rule == ParseRule::FuncDecl
    &&& node.children@.len() == 4
    &&& node.children@[0].rule == ParseRule::Ident
    &&& node.children@[1].rule == ParseRule::FuncParamList
    &&& node.children@[2].rule == ParseRule::FuncReturnType
    &&& d.span == node.span
    &&& interned_as(pc, node.children@[0].text@, d.name)
    &&& match d.kind {
        DeclKind::Function { params, return_type, body } => {
            &&& params@.len() == node.children@[1].children@.len()
            &&& (forall|i: int|
                0 <= i < params@.len() ==> built_param(
                    pc,
                    node.children@[1].children@[i],
                    #[trigger] params@[i],
                ))
            &&& if node.children@[2].children@.len() == 1 {
                match return_type {
                    Some(rt) => built_typespec(pc, node.children@[2].children@[0], *rt.ptr),
                    None => false,
                }
            } else {
                node.children@[2].children@.len() == 0 && return_type is None
            }
            &&& built_block(pc, node.children@[3], body)
        },
    }
}

pub open spec fn built_decl(pc: Seq<Seq<char>>, node: ParseTree, d: Decl) -> bool {
    &&& node.rule == ParseRule::Decl
    &&& node.children@.len() == 1
    &&& built_func_decl(pc, node.children@[0], d)
}

/// `ds` holds the declarations built from the `Decl`-tagged members of a
/// file's child list, in order; other children (such as an end-of-input
/// marker) are skipped.
pub open spec fn built_decls(pc: Seq<Seq<char>>, c: Seq<ParseTree>, ds: Seq<P<Decl>>) -> bool
    decreases c.len(),
{
    if c.len() == 0 {
        ds.len() == 0
    } else if c.last().rule == ParseRule::Decl {
        &&& ds.len() >= 1
        &&& built_decl(pc, c.last(), *ds.last().ptr)
        &&& built_decls(pc, c.drop_last(), ds.drop_last())
    } else {
        built_decls(pc, c.drop_last(), ds)
    }
}

pub open spec fn wf_stmt(node: ParseTree) -> bool {
    &&& node.rule == ParseRule::Stmt
    &&& node.children@.len() == 1
    &&& {
        let c = node.children@[0];
        match c.rule {
            ParseRule::StmtVar => {
                &&& (c.children@.len() == 2 || c.children@.len() == 3)
                &&& c.children@[0].rule == ParseRule::Ident
                &&& wf_typespec(c.children@[1])
                &&& (c.children@.len() == 3 ==> wf_expr_node(c.children@[2]))
            },
            ParseRule::StmtRet => c.children@.len() == 1 && wf_expr_node(c.children@[0]),
            ParseRule::StmtExpr => c.children@.len() == 1 && wf_expr_node(c.children@[0]),
            _ => false,
        }
    }
}

pub open spec fn wf_stmt_list(node: ParseTree) -> bool {
    &&& node.rule == ParseRule::StmtList
    &&& forall|i: int| 0 <= i < node.children@.len() ==> wf_stmt(#[trigger] node.children@[i])
}

pub open spec fn wf_block(node: ParseTree) -> bool {
    &&& node.rule == ParseRule::Block
    &&& node.children@.len() == 1
    &&& wf_stmt_list(node.children@[0])
}

pub open spec fn wf_param(node: ParseTree) -> bool {
    &&& node.rule == ParseRule::FuncParam
    &&& node.children@.len() == 2
    &&& node.children@[0].rule == ParseRule::Ident
    &&& wf_typespec(node.children@[1])
}

pub open spec fn wf_func_decl(node: ParseTree) -> bool {
    &&& node.rule == ParseRule::FuncDecl
    &&& node.children@.len() == 4
    &&& node.children@[0].rule == ParseRule::Ident
    &&& node.children@[1].rule == ParseRule::FuncParamList
    &&& node.children@[2].rule == ParseRule::FuncReturnType
    &&& forall|i: int|
        0 <= i < node.children@[1].children@.len() ==> wf_param(
            #[trigger] node.children@[1].children@[i],
        )
    &&& (node.children@[2].children@.len() == 0 || (node.children@[2].children@.len() == 1
        && wf_typespec(node.children@[2].children@[0])))
    &&& wf_block(node.children@[3])
}

pub open spec fn wf_decl(node: ParseTree) -> bool {
    &&& node.rule == ParseRule::Decl
    &&& node.children@.len() == 1
    &&& wf_func_decl(node.children@[0])
}

pub open spec fn wf_decls(c: Seq<ParseTree>) -> bool {
    forall|i: int|
        0 <= i < c.len() ==> ((#[trigger] c[i]).rule == ParseRule::Decl ==> wf_decl(c[i]))
}


// ------------------------------------------------------------------
// Built relations are stable as the interner grows
// ------------------------------------------------------------------

proof fn lemma_extends_index(pc2: Seq<Seq<char>>, pc1: Seq<Seq<char>>, i: int)
    requires
        interner_extends(pc2, pc1),
        0 <= i < pc1.len(),
    ensures
        pc2[i] == pc1[i],
{
    assert(pc1.is_prefix_of(pc2));
    assert(pc2.subrange(0, pc1.len() as int)[i] == pc2[i]);
}

proof fn lemma_interned_as_mono(pc1: Seq<Seq<char>>, pc2: Seq<Seq<char>>, text: Seq<char>, id: Ident)
    requires
        interned_as(pc1, text, id),
        interner_extends(pc2, pc1),
    ensures
        interned_as(pc2, text, id),
{
    lemma_extends_index(pc2, pc1, id.0 as int);
}

proof fn lemma_interner_extends_trans(c: Seq<Seq<char>>, b: Seq<Seq<char>>, a: Seq<Seq<char>>)
    requires
        interner_extends(b, a),
        interner_extends(c, b),
    ensures
        interner_extends(c, a),
{
    assert(c.subrange(0, a.len() as int) =~= b.subrange(0, a.len() as int));
}

proof fn lemma_ptr_wrapped_mono(
    pc1: Seq<Seq<char>>,
    pc2: Seq<Seq<char>>,
    base: ParseTree,
    span: Span,
    depth: nat,
    ts: Typespec,
)
    requires
        ptr_wrapped(pc1, base, span, depth, ts),
        interner_extends(pc2, pc1),
    ensures
        ptr_wrapped(pc2, base, span, depth, ts),
    decreases depth,
{
    if depth == 0 {
        let id = ts.kind->Name_0;
        lemma_interned_as_mono(pc1, pc2, base.children@[0].text@, id);
    } else {
        lemma_ptr_wrapped_mono(pc1, pc2, base, span, (depth - 1) as nat, *ts.kind->Ptr_0.ptr);
    }
}

proof fn lemma_built_typespec_mono(
    pc1: Seq<Seq<char>>,
    pc2: Seq<Seq<char>>,
    node: ParseTree,
    ts: Typespec,
)
    requires
        built_typespec(pc1, node, ts),
        interner_extends(pc2, pc1),
    ensures
        built_typespec(pc2, node, ts),
{
    if node.children@.len() == 1 {
        lemma_ptr_wrapped_mono(pc1, pc2, node.children@[0], node.span, 0, ts);
    } else {
        lemma_ptr_wrapped_mono(
            pc1,
            pc2,
            node.children@[0],
            node.span,
            node.children@[1].text@.len(),
            ts,
        );
    }
}

proof fn lemma_built_primary_mono(
    pc1: Seq<Seq<char>>,
    pc2: Seq<Seq<char>>,
    node: ParseTree,
    e: Expr,
)
    requires
        built_primary(pc1, node, e),
        interner_extends(pc2, pc1),
    ensures
        built_primary(pc2, node, e),
    decreases node, 5int,
{
    match node.rule {
        ParseRule::Ident => {
            lemma_interned_as_mono(pc1, pc2, node.text@, e.kind->Ident_0);
        },
        ParseRule::Expr => {
            lemma_built_expr_node_mono(pc1, pc2, node, e);
        },
        _ => {},
    }
}

proof fn lemma_built_operand_mono(
    pc1: Seq<Seq<char>>,
    pc2: Seq<Seq<char>>,
    node: ParseTree,
    e: Expr,
)
    requires
        built_operand(pc1, node, e),
        interner_extends(pc2, pc1),
    ensures
        built_operand(pc2, node, e),
    decreases node, 9int,
{
    if node.children@.len() == 1 {
        lemma_built_primary_mono(pc1, pc2, node.children@[0], e);
    } else {
        let post = node.children@[1];
        if post.rule == ParseRule::FuncCall {
            let callee = e.kind->Call_expr;
            let args = e.kind->Call_args;
            lemma_built_primary_mono(pc1, pc2, node.children@[0], *callee.ptr);
            assert forall|i: int| 0 <= i < args@.len() implies built_expr_node(
                pc2,
                post.children@[0].children@[i],
                *(#[trigger] args@[i]).ptr,
            ) by {
                lemma_built_expr_node_mono(
                    pc1,
                    pc2,
                    post.children@[0].children@[i],
                    *args@[i].ptr,
                );
            }
        } else {
            let base = e.kind->Index_expr;
            let index = e.kind->Index_index;
            lemma_built_primary_mono(pc1, pc2, node.children@[0], *base.ptr);
            lemma_built_expr_node_mono(pc1, pc2, post.children@[0], *index.ptr);
        }
    }
}

proof fn lemma_built_expr_node_mono(
    pc1: Seq<Seq<char>>,
    pc2: Seq<Seq<char>>,
    node: ParseTree,
    e: Expr,
)
    requires
        built_expr_node(pc1, node, e),
        interner_extends(pc2, pc1),
    ensures
        built_expr_node(pc2, node, e),
    decreases node, 0int,
{
    let operands = choose|operands: Seq<P<Expr>>|
        {
            &&& operands.len() == (node.children@.len() + 1) / 2
            &&& (forall|i: int|
                0 <= i < operands.len() ==> built_operand(
                    pc1,
                    node.children@[2 * i],
                    *(#[trigger] operands[i]).ptr,
                ))
            &&& #[trigger] is_prec_parse(operands, ops_of_children(node.children@), e)
        };
    assert forall|i: int| 0 <= i < operands.len() implies built_operand(
        pc2,
        node.children@[2 * i],
        *(#[trigger] operands[i]).ptr,
    ) by {
        lemma_built_operand_mono(pc1, pc2, node.children@[2 * i], *operands[i].ptr);
    }
}

proof fn lemma_built_stmt_mono(pc1: Seq<Seq<char>>, pc2: Seq<Seq<char>>, node: ParseTree, st: Stmt)
    requires
        built_stmt(pc1, node, st),
        interner_extends(pc2, pc1),
    ensures
        built_stmt(pc2, node, st),
{
    let c = node.children@[0];
    match c.rule {
        ParseRule::StmtVar => {
            match st.kind {
                StmtKind::Var { name, typ, expr } => {
                    lemma_interned_as_mono(pc1, pc2, c.children@[0].text@, name);
                    lemma_built_typespec_mono(pc1, pc2, c.children@[1], *typ.ptr);
                    if c.children@.len() == 3 {
                        lemma_built_expr_node_mono(pc1, pc2, c.children@[2], *expr->Some_0.ptr);
                    }
                },
                _ => {},
            }
        },
        ParseRule::StmtRet => {
            lemma_built_expr_node_mono(pc1, pc2, c.children@[0], *st.kind->Ret_0.ptr);
        },
        ParseRule::StmtExpr => {
            lemma_built_expr_node_mono(pc1, pc2, c.children@[0], *st.kind->Expr_0.ptr);
        },
        _ => {},
    }
}

proof fn lemma_built_stmt_list_mono(
    pc1: Seq<Seq<char>>,
    pc2: Seq<Seq<char>>,
    node: ParseTree,
    blk: StmtBlock,
)
    requires
        built_stmt_list(pc1, node, blk),
        interner_extends(pc2, pc1),
    ensures
        built_stmt_list(pc2, node, blk),
{
    assert forall|i: int| 0 <= i < node.children@.len() implies built_stmt(
        pc2,
        node.children@[i],
        *(#[trigger] blk.stmts@[i]).ptr,
    ) by {
        lemma_built_stmt_mono(pc1, pc2, node.children@[i], *blk.stmts@[i].ptr);
    }
}

proof fn lemma_built_param_mono(
    pc1: Seq<Seq<char>>,
    pc2: Seq<Seq<char>>,
    node: ParseTree,
    p: FunctionParam,
)
    requires
        built_param(pc1, node, p),
        interner_extends(pc2, pc1),
    ensures
        built_param(pc2, node, p),
{
    lemma_interned_as_mono(pc1, pc2, node.children@[0].text@, p.name);
    lemma_built_typespec_mono(pc1, pc2, node.children@[1], *p.ty.ptr);
}

proof fn lemma_built_func_decl_mono(
    pc1: Seq<Seq<char>>,
    pc2: Seq<Seq<char>>,
    node: ParseTree,
    d: Decl,
)
    requires
        built_func_decl(pc1, node, d),
        interner_extends(pc2, pc1),
    ensures
        built_func_decl(pc2, node, d),
{
    lemma_interned_as_mono(pc1, pc2, node.children@[0].text@, d.name);
    match d.kind {
        DeclKind::Function { params, return_type, body } => {
            assert forall|i: int| 0 <= i < params@.len() implies built_param(
                pc2,
                node.children@[1].children@[i],
                #[trigger] params@[i],
            ) by {
                lemma_built_param_mono(pc1, pc2, node.children@[1].children@[i], params@[i]);
            }
            if node.children@[2].children@.len() == 1 {
                lemma_built_typespec_mono(
                    pc1,
                    pc2,
                    node.children@[2].children@[0],
                    *return_type->Some_0.ptr,
                );
            }
            lemma_built_stmt_list_mono(pc1, pc2, node.children@[3].children@[0], body);
        },
    }
}

proof fn lemma_built_decl_mono(pc1: Seq<Seq<char>>, pc2: Seq<Seq<char>>, node: ParseTree, d: Decl)
    requires
        built_decl(pc1, node, d),
        interner_extends(pc2, pc1),
    ensures
        built_decl(pc2, node, d),
{
    lemma_built_func_decl_mono(pc1, pc2, node.children@[0], d);
}

proof fn lemma_built_decls_mono(
    pc1: Seq<Seq<char>>,
    pc2: Seq<Seq<char>>,
    c: Seq<ParseTree>,
    ds: Seq<P<Decl>>,
)
    requires
        built_decls(pc1, c, ds),
        interner_extends(pc2, pc1),
    ensures
        built_decls(pc2, c, ds),
    decreases c.len(),
{
    if c.len() > 0 {
        if c.last().rule == ParseRule::Decl {
            lemma_built_decl_mono(pc1, pc2, c.last(), *ds.last().ptr);
            lemma_built_decls_mono(pc1, pc2, c.drop_last(), ds.drop_last());
        } else {
            lemma_built_decls_mono(pc1, pc2, c.drop_last(), ds);
        }
    }
}


// ------------------------------------------------------------------
// AST construction
// ------------------------------------------------------------------

proof fn lemma_intern_step_extends(tbl: Seq<Seq<char>>, s: Seq<char>)
    ensures
        interner_extends(intern_ident_table(tbl, s), tbl),
{
    if ident_found(tbl, s) {
        assert(tbl.subrange(0, tbl.len() as int) =~= tbl);
    } else {
        assert(tbl.push(s).subrange(0, tbl.len() as int) =~= tbl);
    }
}

/// Build a base type reference: a bare type name.
pub fn process_base_typespec(parser_context: &mut Context, base_typespec: &ParseTree) -> (r: Result<
    P<Typespec>,
    BuildError,
>)
    requires
        distinct_idents(old(parser_context)@),
    ensures
        distinct_idents(final(parser_context)@),
        interner_extends(final(parser_context)@, old(parser_context)@),
        r matches Ok(ts) ==> built_base_typespec(final(parser_context)@, *base_typespec, ts@),
        wf_base_typespec(*base_typespec) ==> r is Ok,
{
    proof {
        assert(old(parser_context)@.subrange(0, old(parser_context)@.len() as int) =~= old(
            parser_context,
        )@);
    }
    if base_typespec.rule == ParseRule::BaseTypespec && base_typespec.children.len() == 1 {
        let base = &base_typespec.children[0];
        if base.rule == ParseRule::Ident {
            let ident = parser_context.add_ident(base.text.as_str());
            proof {
                lemma_intern_step_extends(old(parser_context)@, base.text@);
            }
            return Ok(Typespec::name(base_typespec.span, ident));
        }
    }
    Err(BuildError::MalformedTree)
}

/// Build a written type: a base name wrapped in one pointer layer per `*`.
#[verifier::loop_isolation(false)]
pub fn process_typespec(parser_context: &mut Context, typespec: &ParseTree) -> (r: Result<
    P<Typespec>,
    BuildError,
>)
    requires
        distinct_idents(old(parser_context)@),
    ensures
        distinct_idents(final(parser_context)@),
        interner_extends(final(parser_context)@, old(parser_context)@),
        r matches Ok(ts) ==> built_typespec(final(parser_context)@, *typespec, ts@),
        wf_typespec(*typespec) ==> r is Ok,
{
    proof {
        assert(old(parser_context)@.subrange(0, old(parser_context)@.len() as int) =~= old(
            parser_context,
        )@);
    }
    if typespec.rule != ParseRule::Typespec {
        return Err(BuildError::MalformedTree);
    }
    let nc = typespec.children.len();
    if nc == 1 {
        match process_base_typespec(parser_context, &typespec.children[0]) {
            Ok(ts) => Ok(ts),
            Err(err) => Err(err),
        }
    } else if nc == 2 {
        if typespec.children[1].rule != ParseRule::Pointer {
            return Err(BuildError::MalformedTree);
        }
        let base = match process_base_typespec(parser_context, &typespec.children[0]) {
            Ok(ts) => ts,
            Err(err) => {
                return Err(err);
            },
        };
        let mut result = base;
        let depth = typespec.children[1].text.as_str().unicode_len();
        let mut d: usize = 0;
        while d < depth
            invariant
                d <= depth,
                depth == typespec.children@[1].text@.len(),
                ptr_wrapped(
                    parser_context@,
                    typespec.children@[0],
                    typespec.span,
                    d as nat,
                    result@,
                ),
            decreases depth - d,
        {
            result = Typespec::ptr(typespec.span, result);
            d += 1;
        }
        Ok(result)
    } else {
        Err(BuildError::MalformedTree)
    }
}

/// Build one expression from an expression node: build each operand in order
/// (interning identifiers left to right), read off the operator stream, and
/// combine by operator precedence.
#[verifier::loop_isolation(false)]
#[verifier::rlimit(100)]
pub fn create_expr_ast(parser_context: &mut Context, node: &ParseTree) -> (r: Result<
    P<Expr>,
    BuildError,
>)
    requires
        distinct_idents(old(parser_context)@),
    ensures
        distinct_idents(final(parser_context)@),
        interner_extends(final(parser_context)@, old(parser_context)@),
        r matches Ok(e) ==> built_expr_node(final(parser_context)@, *node, e@),
        wf_expr_node(*node) ==> r is Ok,
    decreases *node, 1int,
{
    proof {
        assert(old(parser_context)@.subrange(0, old(parser_context)@.len() as int) =~= old(
            parser_context,
        )@);
    }
    if node.rule != ParseRule::Expr {
        return Err(BuildError::MalformedTree);
    }
    let n = node.children.len();
    if n % 2 == 0 {
        return Err(BuildError::MalformedTree);
    }
    let mut operands: Vec<P<Expr>> = Vec::new();
    let mut ops: Vec<BinaryOp> = Vec::new();
    let mut idx: usize = 0;
    while idx < n
        invariant
            idx <= n,
            n == node.children@.len(),
            n % 2 == 1,
            operands@.len() == (idx + 1) / 2,
            ops@.len() == idx / 2,
            distinct_idents(parser_context@),
            interner_extends(parser_context@, old(parser_context)@),
            forall|i: int|
                0 <= i < operands@.len() ==> built_operand(
                    parser_context@,
                    node.children@[2 * i],
                    *(#[trigger] operands@[i]).ptr,
                ),
            forall|i: int|
                0 <= i < ops@.len() ==> rule_op((#[trigger] node.children@[2 * i + 1]).rule)
                    == Some(ops@[i]),
        decreases n - idx,
    {
        let ghost pc_before = parser_context@;
        if idx % 2 == 0 {
            match process_operand(parser_context, &node.children[idx]) {
                Ok(e) => {
                    operands.push(e);
                    proof {
                        assert forall|i: int| 0 <= i < operands@.len() implies built_operand(
                            parser_context@,
                            node.children@[2 * i],
                            *(#[trigger] operands@[i]).ptr,
                        ) by {
                            if i < operands@.len() - 1 {
                                lemma_built_operand_mono(
                                    pc_before,
                                    parser_context@,
                                    node.children@[2 * i],
                                    *operands@[i].ptr,
                                );
                            }
                        }
                        lemma_interner_extends_trans(
                            parser_context@,
                            pc_before,
                            old(parser_context)@,
                        );
                    }
                },
                Err(err) => {
                    proof {
                        if wf_expr_node(*node) {
                            assert(2 * (idx as int / 2) == idx as int);
                            assert(wf_operand(node.children@[idx as int]));
                            assert(false);
                        }
                    }
                    return Err(err);
                },
            }
        } else {
            match rule_op_exec(node.children[idx].rule) {
                Some(op) => {
                    ops.push(op);
                },
                None => {
                    proof {
                        if wf_expr_node(*node) {
                            assert(2 * (idx as int / 2) + 1 == idx as int);
                            assert(rule_op(node.children@[idx as int].rule) is Some);
                            assert(false);
                        }
                    }
                    return Err(BuildError::MalformedTree);
                },
            }
        }
        idx += 1;
    }
    proof {
        assert(ops@ =~= ops_of_children(node.children@));
        assert(ops_ok(node.children@));
    }
    let e = build_prec(operands, ops);
    Ok(e)
}

/// Build one operand: a primary expression with an optional call or index
/// suffix wrapping it.
#[verifier::loop_isolation(false)]
#[verifier::rlimit(100)]
pub fn process_operand(parser_context: &mut Context, node: &ParseTree) -> (r: Result<
    P<Expr>,
    BuildError,
>)
    requires
        distinct_idents(old(parser_context)@),
    ensures
        distinct_idents(final(parser_context)@),
        interner_extends(final(parser_context)@, old(parser_context)@),
        r matches Ok(e) ==> built_operand(final(parser_context)@, *node, e@),
        wf_operand(*node) ==> r is Ok,
    decreases *node, 9int,
{
    proof {
        assert(old(parser_context)@.subrange(0, old(parser_context)@.len() as int) =~= old(
            parser_context,
        )@);
    }
    if node.rule != ParseRule::Base {
        return Err(BuildError::MalformedTree);
    }
    let nc = node.children.len();
    if nc == 1 {
        match process_primary(parser_context, &node.children[0]) {
            Ok(e) => Ok(e),
            Err(err) => Err(err),
        }
    } else if nc == 2 {
        let expr = match process_primary(parser_context, &node.children[0]) {
            Ok(e) => e,
            Err(err) => {
                return Err(err);
            },
        };
        let post = &node.children[1];
        if post.rule == ParseRule::FuncCall {
            if post.children.len() != 1 {
                return Err(BuildError::MalformedTree);
            }
            let arg_list = &post.children[0];
            if arg_list.rule != ParseRule::ArgList {
                return Err(BuildError::MalformedTree);
            }
            let na = arg_list.children.len();
            let mut res: Vec<P<Expr>> = Vec::new();
            let mut i: usize = 0;
            while i < na
                invariant
                    i <= na,
                    na == arg_list.children@.len(),
                    res@.len() == i,
                    distinct_idents(parser_context@),
                    interner_extends(parser_context@, old(parser_context)@),
                    built_primary(parser_context@, node.children@[0], expr@),
                    forall|k: int|
                        0 <= k < i ==> built_expr_node(
                            parser_context@,
                            arg_list.children@[k],
                            *(#[trigger] res@[k]).ptr,
                        ),
                decreases na - i,
            {
                let ghost pc_before = parser_context@;
                match process_expr(parser_context, &arg_list.children[i]) {
                    Ok(e) => {
                        res.push(e);
                        proof {
                            lemma_built_primary_mono(
                                pc_before,
                                parser_context@,
                                node.children@[0],
                                expr@,
                            );
                            assert forall|k: int| 0 <= k < res@.len() implies built_expr_node(
                                parser_context@,
                                arg_list.children@[k],
                                *(#[trigger] res@[k]).ptr,
                            ) by {
                                if k < res@.len() - 1 {
                                    lemma_built_expr_node_mono(
                                        pc_before,
                                        parser_context@,
                                        arg_list.children@[k],
                                        *res@[k].ptr,
                                    );
                                }
                            }
                            lemma_interner_extends_trans(
                                parser_context@,
                                pc_before,
                                old(parser_context)@,
                            );
                        }
                    },
                    Err(err) => {
                        return Err(err);
                    },
                }
                i += 1;
            }
            Ok(Expr::call(node.span, expr, res))
        } else if post.rule == ParseRule::ArrayIndex {
            if post.children.len() != 1 {
                return Err(BuildError::MalformedTree);
            }
            let ghost pc_mid = parser_context@;
            let index = match process_expr(parser_context, &post.children[0]) {
                Ok(e) => e,
                Err(err) => {
                    return Err(err);
                },
            };
            proof {
                lemma_built_primary_mono(pc_mid, parser_context@, node.children@[0], expr@);
                lemma_interner_extends_trans(parser_context@, pc_mid, old(parser_context)@);
            }
            Ok(Expr::index(node.span, expr, index))
        } else {
            Err(BuildError::MalformedTree)
        }
    } else {
        Err(BuildError::MalformedTree)
    }
}

/// Build a primary expression: an integer or string literal, an identifier
/// reference, or a parenthesized expression.
pub fn process_primary(parser_context: &mut Context, node: &ParseTree) -> (r: Result<
    P<Expr>,
    BuildError,
>)
    requires
        distinct_idents(old(parser_context)@),
    ensures
        distinct_idents(final(parser_context)@),
        interner_extends(final(parser_context)@, old(parser_context)@),
        r matches Ok(e) ==> built_primary(final(parser_context)@, *node, e@),
        wf_primary(*node) ==> r is Ok,
    decreases *node, 5int,
{
    proof {
        assert(old(parser_context)@.subrange(0, old(parser_context)@.len() as int) =~= old(
            parser_context,
        )@);
    }
    match node.rule {
        ParseRule::Integer => {
            match parse_u64_decimal(node.text.as_str()) {
                Some(value) => Ok(Expr::integer(node.span, value)),
                None => Err(BuildError::BadIntegerLiteral),
            }
        },
        ParseRule::Ident => {
            let ident = parser_context.add_ident(node.text.as_str());
            proof {
                lemma_intern_step_extends(old(parser_context)@, node.text@);
            }
            Ok(Expr::ident(node.span, ident))
        },
        ParseRule::StringLit => {
            let len = node.text.as_str().unicode_len();
            if len < 2 {
                return Err(BuildError::MalformedTree);
            }
            // strip the enclosing quote characters
            let inner = node.text.as_str().substring_char(1, len - 1);
            Ok(Expr::string(node.span, inner.to_owned()))
        },
        ParseRule::Expr => {
            match process_expr(parser_context, node) {
                Ok(e) => Ok(e),
                Err(err) => Err(err),
            }
        },
        _ => Err(BuildError::MalformedTree),
    }
}

/// Build one expression node.
pub fn process_expr(parser_context: &mut Context, expr: &ParseTree) -> (r: Result<
    P<Expr>,
    BuildError,
>)
    requires
        distinct_idents(old(parser_context)@),
    ensures
        distinct_idents(final(parser_context)@),
        interner_extends(final(parser_context)@, old(parser_context)@),
        r matches Ok(e) ==> built_expr_node(final(parser_context)@, *expr, e@),
        wf_expr_node(*expr) ==> r is Ok,
    decreases *expr, 2int,
{
    create_expr_ast(parser_context, expr)
}


/// Build one statement.
#[verifier::rlimit(100)]
pub fn process_stmt(parser_context: &mut Context, stmt: &ParseTree) -> (r: Result<
    P<Stmt>,
    BuildError,
>)
    requires
        distinct_idents(old(parser_context)@),
    ensures
        distinct_idents(final(parser_context)@),
        interner_extends(final(parser_context)@, old(parser_context)@),
        r matches Ok(st) ==> built_stmt(final(parser_context)@, *stmt, st@),
        wf_stmt(*stmt) ==> r is Ok,
{
    proof {
        assert(old(parser_context)@.subrange(0, old(parser_context)@.len() as int) =~= old(
            parser_context,
        )@);
    }
    if stmt.rule != ParseRule::Stmt || stmt.children.len() != 1 {
        return Err(BuildError::MalformedTree);
    }
    let inner = &stmt.children[0];
    match inner.rule {
        ParseRule::StmtVar => {
            let nc = inner.children.len();
            if nc != 2 && nc != 3 {
                return Err(BuildError::MalformedTree);
            }
            if inner.children[0].rule != ParseRule::Ident {
                return Err(BuildError::MalformedTree);
            }
            let name = parser_context.add_ident(inner.children[0].text.as_str());
            proof {
                lemma_intern_step_extends(old(parser_context)@, inner.children@[0].text@);
            }
            let ghost pc1 = parser_context@;
            let typespec = match process_typespec(parser_context, &inner.children[1]) {
                Ok(ts) => ts,
                Err(err) => {
                    proof {
                        lemma_interner_extends_trans(
                            parser_context@,
                            pc1,
                            old(parser_context)@,
                        );
                    }
                    return Err(err);
                },
            };
            proof {
                lemma_interner_extends_trans(parser_context@, pc1, old(parser_context)@);
                lemma_interned_as_mono(pc1, parser_context@, inner.children@[0].text@, name);
            }
            let ghost pc2 = parser_context@;
            let expr = if nc == 3 {
                match process_expr(parser_context, &inner.children[2]) {
                    Ok(e) => {
                        proof {
                            lemma_interner_extends_trans(
                                parser_context@,
                                pc2,
                                old(parser_context)@,
                            );
                            lemma_interned_as_mono(
                                pc2,
                                parser_context@,
                                inner.children@[0].text@,
                                name,
                            );
                            lemma_built_typespec_mono(
                                pc2,
                                parser_context@,
                                inner.children@[1],
                                typespec@,
                            );
                        }
                        Some(e)
                    },
                    Err(err) => {
                        proof {
                            lemma_interner_extends_trans(
                                parser_context@,
                                pc2,
                                old(parser_context)@,
                            );
                        }
                        return Err(err);
                    },
                }
            } else {
                None
            };
            Ok(Stmt::var(stmt.span, name, typespec, expr))
        },
        ParseRule::StmtRet => {
            if inner.children.len() != 1 {
                return Err(BuildError::MalformedTree);
            }
            match process_expr(parser_context, &inner.children[0]) {
                Ok(e) => Ok(Stmt::ret(stmt.span, e)),
                Err(err) => Err(err),
            }
        },
        ParseRule::StmtExpr => {
            if inner.children.len() != 1 {
                return Err(BuildError::MalformedTree);
            }
            match process_expr(parser_context, &inner.children[0]) {
                Ok(e) => Ok(Stmt::expr(stmt.span, e)),
                Err(err) => Err(err),
            }
        },
        _ => Err(BuildError::MalformedTree),
    }
}

/// Build a statement list into a block.
#[verifier::loop_isolation(false)]
#[verifier::rlimit(100)]
pub fn process_stmt_list(parser_context: &mut Context, stmt_list: &ParseTree) -> (r: Result<
    StmtBlock,
    BuildError,
>)
    requires
        distinct_idents(old(parser_context)@),
    ensures
        distinct_idents(final(parser_context)@),
        interner_extends(final(parser_context)@, old(parser_context)@),
        r matches Ok(blk) ==> built_stmt_list(final(parser_context)@, *stmt_list, blk),
        wf_stmt_list(*stmt_list) ==> r is Ok,
{
    proof {
        assert(old(parser_context)@.subrange(0, old(parser_context)@.len() as int) =~= old(
            parser_context,
        )@);
    }
    if stmt_list.rule != ParseRule::StmtList {
        return Err(BuildError::MalformedTree);
    }
    let mut result = StmtBlock::new(stmt_list.span);
    let n = stmt_list.children.len();
    let mut i: usize = 0;
    while i < n
        invariant
            i <= n,
            n == stmt_list.children@.len(),
            result.stmts@.len() == i,
            result.span == stmt_list.span,
            distinct_idents(parser_context@),
            interner_extends(parser_context@, old(parser_context)@),
            forall|k: int|
                0 <= k < i ==> built_stmt(
                    parser_context@,
                    stmt_list.children@[k],
                    *(#[trigger] result.stmts@[k]).ptr,
                ),
        decreases n - i,
    {
        let ghost pc_before = parser_context@;
        match process_stmt(parser_context, &stmt_list.children[i]) {
            Ok(st) => {
                result.add_stmt(st);
                proof {
                    assert forall|k: int| 0 <= k < result.stmts@.len() implies built_stmt(
                        parser_context@,
                        stmt_list.children@[k],
                        *(#[trigger] result.stmts@[k]).ptr,
                    ) by {
                        if k < result.stmts@.len() - 1 {
                            lemma_built_stmt_mono(
                                pc_before,
                                parser_context@,
                                stmt_list.children@[k],
                                *result.stmts@[k].ptr,
                            );
                        }
                    }
                    lemma_interner_extends_trans(
                        parser_context@,
                        pc_before,
                        old(parser_context)@,
                    );
                }
            },
            Err(err) => {
                proof {
                    if wf_stmt_list(*stmt_list) {
                        assert(wf_stmt(stmt_list.children@[i as int]));
                        assert(false);
                    }
                }
                return Err(err);
            },
        }
        i += 1;
    }
    Ok(result)
}

/// Build a block.
pub fn process_block(parser_context: &mut Context, block: &ParseTree) -> (r: Result<
    StmtBlock,
    BuildError,
>)
    requires
        distinct_idents(old(parser_context)@),
    ensures
        distinct_idents(final(parser_context)@),
        interner_extends(final(parser_context)@, old(parser_context)@),
        r matches Ok(blk) ==> built_block(final(parser_context)@, *block, blk),
        wf_block(*block) ==> r is Ok,
{
    proof {
        assert(old(parser_context)@.subrange(0, old(parser_context)@.len() as int) =~= old(
            parser_context,
        )@);
    }
    if block.rule != ParseRule::Block || block.children.len() != 1 {
        return Err(BuildError::MalformedTree);
    }
    process_stmt_list(parser_context, &block.children[0])
}

/// Build a function declaration: parameters, optional return type, body, and
/// finally the function's own name, which is interned only after everything
/// it binds.
#[verifier::loop_isolation(false)]
#[verifier::rlimit(100)]
pub fn process_decl_func(parser_context: &mut Context, func: &ParseTree) -> (r: Result<
    P<Decl>,
    BuildError,
>)
    requires
        distinct_idents(old(parser_context)@),
    ensures
        distinct_idents(final(parser_context)@),
        interner_extends(final(parser_context)@, old(parser_context)@),
        r matches Ok(d) ==> built_func_decl(final(parser_context)@, *func, d@),
        wf_func_decl(*func) ==> r is Ok,
{
    proof {
        assert(old(parser_context)@.subrange(0, old(parser_context)@.len() as int) =~= old(
            parser_context,
        )@);
    }
    if func.rule != ParseRule::FuncDecl || func.children.len() != 4 {
        return Err(BuildError::MalformedTree);
    }
    if func.children[0].rule != ParseRule::Ident {
        return Err(BuildError::MalformedTree);
    }
    let func_param_list = &func.children[1];
    if func_param_list.rule != ParseRule::FuncParamList {
        return Err(BuildError::MalformedTree);
    }
    let np = func_param_list.children.len();
    let mut params: Vec<FunctionParam> = Vec::new();
    let mut i: usize = 0;
    while i < np
        invariant
            i <= np,
            np == func_param_list.children@.len(),
            params@.len() == i,
            distinct_idents(parser_context@),
            interner_extends(parser_context@, old(parser_context)@),
            forall|k: int|
                0 <= k < i ==> built_param(
                    parser_context@,
                    func_param_list.children@[k],
                    #[trigger] params@[k],
                ),
        decreases np - i,
    {
        let ghost pc_top = parser_context@;
        let func_param = &func_param_list.children[i];
        if func_param.rule != ParseRule::FuncParam || func_param.children.len() != 2
            || func_param.children[0].rule != ParseRule::Ident {
            proof {
                if wf_func_decl(*func) {
                    assert(wf_param(func_param_list.children@[i as int]));
                    assert(false);
                }
            }
            return Err(BuildError::MalformedTree);
        }
        let pname = parser_context.add_ident(func_param.children[0].text.as_str());
        proof {
            lemma_intern_step_extends(pc_top, func_param.children@[0].text@);
        }
        let ghost pc1 = parser_context@;
        let typespec = match process_typespec(parser_context, &func_param.children[1]) {
            Ok(ts) => ts,
            Err(err) => {
                proof {
                    lemma_interner_extends_trans(parser_context@, pc1, old(parser_context)@);
                    if wf_func_decl(*func) {
                        assert(wf_param(func_param_list.children@[i as int]));
                        assert(false);
                    }
                }
                return Err(err);
            },
        };
        let ghost pc_before_push = parser_context@;
        params.push(FunctionParam::new(func_param.span, pname, typespec));
        proof {
            lemma_interner_extends_trans(parser_context@, pc1, pc_top);
            lemma_interned_as_mono(pc1, parser_context@, func_param.children@[0].text@, pname);
            assert forall|k: int| 0 <= k < params@.len() implies built_param(
                parser_context@,
                func_param_list.children@[k],
                #[trigger] params@[k],
            ) by {
                if k < params@.len() - 1 {
                    lemma_built_param_mono(
                        pc_top,
                        parser_context@,
                        func_param_list.children@[k],
                        params@[k],
                    );
                }
            }
            lemma_interner_extends_trans(parser_context@, pc_top, old(parser_context)@);
        }
        i += 1;
    }

    let return_type_node = &func.children[2];
    if return_type_node.rule != ParseRule::FuncReturnType {
        return Err(BuildError::MalformedTree);
    }
    let ghost pc_params = parser_context@;
    let nrt = return_type_node.children.len();
    let return_type: Option<P<Typespec>> = if nrt == 1 {
        match process_typespec(parser_context, &return_type_node.children[0]) {
            Ok(ts) => Some(ts),
            Err(err) => {
                proof {
                    lemma_interner_extends_trans(
                        parser_context@,
                        pc_params,
                        old(parser_context)@,
                    );
                }
                return Err(err);
            },
        }
    } else if nrt == 0 {
        None
    } else {
        return Err(BuildError::MalformedTree);
    };
    proof {
        lemma_interner_extends_trans(parser_context@, pc_params, old(parser_context)@);
        assert forall|k: int| 0 <= k < params@.len() implies built_param(
            parser_context@,
            func_param_list.children@[k],
            #[trigger] params@[k],
        ) by {
            lemma_built_param_mono(
                pc_params,
                parser_context@,
                func_param_list.children@[k],
                params@[k],
            );
        }
    }

    let ghost pc_rt = parser_context@;
    let body = match process_block(parser_context, &func.children[3]) {
        Ok(blk) => blk,
        Err(err) => {
            proof {
                lemma_interner_extends_trans(parser_context@, pc_rt, old(parser_context)@);
            }
            return Err(err);
        },
    };
    let ghost pc_body = parser_context@;
    let name = parser_context.add_ident(func.children[0].text.as_str());
    proof {
        lemma_intern_step_extends(pc_body, func.children@[0].text@);
        lemma_interner_extends_trans(parser_context@, pc_rt, old(parser_context)@);
        assert forall|k: int| 0 <= k < params@.len() implies built_param(
            parser_context@,
            func_param_list.children@[k],
            #[trigger] params@[k],
        ) by {
            lemma_built_param_mono(
                pc_rt,
                parser_context@,
                func_param_list.children@[k],
                params@[k],
            );
        }
        if nrt == 1 {
            lemma_built_typespec_mono(
                pc_rt,
                parser_context@,
                func.children@[2].children@[0],
                return_type->Some_0@,
            );
        }
        lemma_built_stmt_list_mono(
            pc_body,
            parser_context@,
            func.children@[3].children@[0],
            body,
        );
    }
    Ok(Decl::function(func.span, name, params, return_type, body))
}

/// Build one declaration.
pub fn process_decl(parser_context: &mut Context, decl: &ParseTree) -> (r: Result<
    P<Decl>,
    BuildError,
>)
    requires
        distinct_idents(old(parser_context)@),
    ensures
        distinct_idents(final(parser_context)@),
        interner_extends(final(parser_context)@, old(parser_context)@),
        r matches Ok(d) ==> built_decl(final(parser_context)@, *decl, d@),
        wf_decl(*decl) ==> r is Ok,
{
    proof {
        assert(old(parser_context)@.subrange(0, old(parser_context)@.len() as int) =~= old(
            parser_context,
        )@);
    }
    if decl.rule != ParseRule::Decl || decl.children.len() != 1 {
        return Err(BuildError::MalformedTree);
    }
    match process_decl_func(parser_context, &decl.children[0]) {
        Ok(d) => Ok(d),
        Err(err) => Err(err),
    }
}

/// Build every declaration of a file node, skipping non-declaration children
/// such as the end-of-input marker.
#[verifier::loop_isolation(false)]
#[verifier::rlimit(100)]
pub fn process_decls(parser_context: &mut Context, file: &ParseTree) -> (r: Result<
    Vec<P<Decl>>,
    BuildError,
>)
    requires
        distinct_idents(old(parser_context)@),
    ensures
        distinct_idents(final(parser_context)@),
        interner_extends(final(parser_context)@, old(parser_context)@),
        r matches Ok(ds) ==> built_decls(final(parser_context)@, file.children@, ds@),
        file.rule == ParseRule::File && wf_decls(file.children@) ==> r is Ok,
{
    proof {
        assert(old(parser_context)@.subrange(0, old(parser_context)@.len() as int) =~= old(
            parser_context,
        )@);
    }
    if file.rule != ParseRule::File {
        return Err(BuildError::MalformedTree);
    }
    let n = file.children.len();
    let mut decls: Vec<P<Decl>> = Vec::new();
    let mut i: usize = 0;
    while i < n
        invariant
            i <= n,
            n == file.children@.len(),
            distinct_idents(parser_context@),
            interner_extends(parser_context@, old(parser_context)@),
            built_decls(parser_context@, file.children@.take(i as int), decls@),
        decreases n - i,
    {
        let ghost pc_before = parser_context@;
        let child = &file.children[i];
        if child.rule == ParseRule::Decl {
            match process_decl(parser_context, child) {
                Ok(d) => {
                    let ghost ds0 = decls@;
                    decls.push(d);
                    proof {
                        assert(decls@.drop_last() =~= ds0);
                        lemma_built_decls_mono(
                            pc_before,
                            parser_context@,
                            file.children@.take(i as int),
                            ds0,
                        );
                        assert(file.children@.take(i as int + 1).drop_last() =~= file.children@
                            .take(i as int));
                        lemma_interner_extends_trans(
                            parser_context@,
                            pc_before,
                            old(parser_context)@,
                        );
                    }
                },
                Err(err) => {
                    proof {
                        if wf_decls(file.children@) {
                            assert(wf_decl(file.children@[i as int]));
                            assert(false);
                        }
                    }
                    return Err(err);
                },
            }
        } else {
            proof {
                assert(file.children@.take(i as int + 1).drop_last() =~= file.children@.take(
                    i as int,
                ));
            }
        }
        i += 1;
    }
    proof {
        assert(file.children@.take(n as int) =~= file.children@);
    }
    Ok(decls)
}

} // verus!
