//! The typed expression intermediate representation.
//!
//! [`Expr`] is a tree of scalar, aggregate and window expressions. Every
//! node carries exactly one resolved [`Ty`], and that type is a pure
//! function of the children's types and the operator's or function's type
//! rule ([`expr_wf`] states this; recomputing a node's type always yields
//! the stored value). Construction ([`build_expr`]) resolves column
//! references against an input schema by name and function calls against the
//! catalog; it is purely structural and type-resolving — no folding or
//! simplification happens here.

use vstd::prelude::*;

use crate::catalog::Catalog;
use crate::catalog::FnKind;
use crate::catalog::ReturnRule;
use crate::error::PlanError;
use crate::schema::ColLookup;
use crate::schema::Column;
use crate::schema::Schema;
use crate::types::Ty;
use crate::types::TyKind;
use crate::types::common_ty;
use crate::types::dup_ty;
use crate::types::spec_common_ty;
use crate::types::spec_is_numeric;
use crate::types::spec_is_orderable;
use crate::types::is_numeric;
use crate::types::is_orderable;
use crate::types::ty_wf;

verus! {

/// Greatest scale a decimal literal may carry: the digits of its 64-bit
/// unscaled value.
pub const MAX_LITERAL_SCALE: u32 = 18;

/// A literal value. Decimals carry an unscaled 64-bit value and a scale;
/// there is no floating-point literal (the planner holds no floats).
#[derive(Debug, PartialEq, Eq)]
pub enum LitValue {
    Null,
    Bool(bool),
    Int(i64),
    Dec(i64, u32),
    Str(String),
}

/// A unary operator.
#[derive(Debug, Clone, Copy, PartialEq, Eq, Structural)]
pub enum UnOp {
    /// Numeric negation.
    Neg,
    /// Boolean negation.
    Not,
    /// NULL test; the one NULL-eliminating unary operator: its result is
    /// never nullable.
    IsNull,
}

/// A binary operator.
#[derive(Debug, Clone, Copy, PartialEq, Eq, Structural)]
pub enum BinOp {
    Add,
    Sub,
    Mul,
    Div,
    Eq,
    Ne,
    Lt,
    Le,
    Gt,
    Ge,
    And,
    Or,
}

/// Whether a binary operator is arithmetic (result numeric) rather than a
/// comparison or boolean connective (result boolean).
pub open spec fn spec_is_arith(op: BinOp) -> bool {
    match op {
        BinOp::Add | BinOp::Sub | BinOp::Mul | BinOp::Div => true,
        _ => false,
    }
}

/// Whether a binary operator is a boolean connective.
pub open spec fn spec_is_connective(op: BinOp) -> bool {
    op == BinOp::And || op == BinOp::Or
}

/// Well-formedness of a literal: a decimal's scale fits its 64-bit value.
pub open spec fn lit_wf(v: LitValue) -> bool {
    match v {
        LitValue::Dec(_, s) => s <= MAX_LITERAL_SCALE,
        _ => true,
    }
}

/// The type of a literal. NULL is typed [`TyKind::NullType`]; a decimal
/// literal is typed with the full 64-bit precision at its scale.
pub open spec fn spec_lit_ty(v: LitValue) -> Ty {
    match v {
        LitValue::Null => Ty { kind: TyKind::NullType, nullable: true },
        LitValue::Bool(_) => Ty { kind: TyKind::Boolean, nullable: false },
        LitValue::Int(_) => Ty { kind: TyKind::Int64, nullable: false },
        LitValue::Dec(_, s) => Ty { kind: TyKind::Decimal(MAX_LITERAL_SCALE, s), nullable: false },
        LitValue::Str(_) => Ty { kind: TyKind::Varchar, nullable: false },
    }
}

/// Whether a string literal coerces to the kind: every kind with a defined
/// parse rule (numerics, boolean, date and time kinds, and strings
/// themselves) accepts one.
pub open spec fn spec_str_parses_to(k: TyKind) -> bool {
    match k {
        TyKind::Boolean | TyKind::Int32 | TyKind::Int64 | TyKind::Decimal(_, _) | TyKind::Float64
            | TyKind::Varchar | TyKind::Date | TyKind::Timestamp => true,
        _ => false,
    }
}

/// Whether a literal is assignable to a target type: the NULL literal to
/// any nullable type, a string literal to any target with a defined parse
/// rule, and any other literal by the ordinary type-level rules.
pub open spec fn spec_literal_assignable(v: LitValue, to: Ty) -> bool {
    match v {
        LitValue::Null => to.nullable,
        LitValue::Str(_) => spec_str_parses_to(to.kind),
        _ => crate::types::spec_is_assignable(spec_lit_ty(v), to),
    }
}

/// Whether a literal is assignable to a target type.
pub fn literal_assignable(v: &LitValue, to: &Ty) -> (r: bool)
    ensures
        r == spec_literal_assignable(*v, *to),
{
    match v {
        LitValue::Null => to.nullable,
        LitValue::Str(_) => match to.kind {
            TyKind::Boolean | TyKind::Int32 | TyKind::Int64 | TyKind::Decimal(_, _)
                | TyKind::Float64 | TyKind::Varchar | TyKind::Date | TyKind::Timestamp => true,
            _ => false,
        },
        _ => {
            let t = lit_ty(v);
            crate::types::is_assignable(&t, to)
        },
    }
}

/// The type of a unary application, or `None` on a type mismatch.
pub open spec fn spec_unop_ty(op: UnOp, t: Ty) -> Option<Ty> {
    match op {
        UnOp::Neg => if spec_is_numeric(t.kind) {
            Some(t)
        } else {
            None
        },
        UnOp::Not => if t.kind == TyKind::Boolean {
            Some(t)
        } else {
            None
        },
        UnOp::IsNull => Some(Ty { kind: TyKind::Boolean, nullable: false }),
    }
}

/// The type of a binary application, or `None` on a type mismatch:
/// arithmetic takes the least upper bound of two numeric operands;
/// comparisons take comparable operands to boolean; connectives take two
/// booleans. Nullability propagates from either operand.
pub open spec fn spec_binop_ty(op: BinOp, l: Ty, r: Ty) -> Option<Ty> {
    if spec_is_arith(op) {
        match spec_common_ty(l, r) {
            Some(t) => if spec_is_numeric(t.kind) {
                Some(t)
            } else {
                None
            },
            None => None,
        }
    } else if spec_is_connective(op) {
        if l.kind == TyKind::Boolean && r.kind == TyKind::Boolean {
            Some(Ty { kind: TyKind::Boolean, nullable: l.nullable || r.nullable })
        } else {
            None
        }
    } else {
        match spec_common_ty(l, r) {
            Some(_) => Some(Ty { kind: TyKind::Boolean, nullable: l.nullable || r.nullable }),
            None => None,
        }
    }
}

/// The type a resolved call or window call returns, from the stored return
/// rule, classification and argument types: see
/// [`crate::catalog::spec_return_ty`].
pub open spec fn spec_rule_ty(rule: ReturnRule, kind: FnKind, args: Seq<Ty>) -> Ty {
    let base = match rule {
        ReturnRule::Fixed(t) => t,
        ReturnRule::SameAsArg(i) => args[i as int],
    };
    Ty {
        kind: base.kind,
        nullable: base.nullable || kind == FnKind::Aggregate || exists|i: int|
            0 <= i < args.len() && (#[trigger] args[i]).nullable,
    }
}

/// A resolved function call.
#[derive(Debug, PartialEq, Eq)]
pub struct CallExpr {
    pub name: String,
    pub kind: FnKind,
    pub rule: ReturnRule,
    pub args: Vec<Expr>,
    pub ty: Ty,
}

/// A resolved window function call, with its partition/order specification.
#[derive(Debug, PartialEq, Eq)]
pub struct WindowExpr {
    pub name: String,
    pub rule: ReturnRule,
    pub args: Vec<Expr>,
    pub partition: Vec<Expr>,
    pub order: Vec<Expr>,
    pub ty: Ty,
}

/// A typed expression node.
#[derive(Debug, PartialEq, Eq)]
pub enum Expr {
    Literal(LitValue, Ty),
    /// A column of the input schema, by position.
    ColumnRef(usize, Ty),
    Unary(UnOp, Box<Expr>, Ty),
    Binary(BinOp, Box<Expr>, Box<Expr>, Ty),
    Call(CallExpr),
    Window(WindowExpr),
}

impl Expr {
    /// The resolved type this node carries.
    pub open spec fn spec_ty(self) -> Ty {
        match self {
            Expr::Literal(_, t) => t,
            Expr::ColumnRef(_, t) => t,
            Expr::Unary(_, _, t) => t,
            Expr::Binary(_, _, _, t) => t,
            Expr::Call(c) => c.ty,
            Expr::Window(w) => w.ty,
        }
    }

    /// The resolved type this node carries.
    pub fn ty(&self) -> (t: &Ty)
        ensures
            *t == self.spec_ty(),
    {
        match self {
            Expr::Literal(_, t) => t,
            Expr::ColumnRef(_, t) => t,
            Expr::Unary(_, _, t) => t,
            Expr::Binary(_, _, _, t) => t,
            Expr::Call(c) => &c.ty,
            Expr::Window(w) => &w.ty,
        }
    }
}

/// The types of a sequence of expressions.
pub open spec fn exprs_tys(es: Seq<Expr>) -> Seq<Ty> {
    es.map_values(|e: Expr| e.spec_ty())
}

/// Well-formedness of an expression against an input schema: every column
/// reference is in range and carries the referenced column's type, and
/// every node's stored type is exactly the type its children and its
/// operator's type rule determine.
pub open spec fn expr_wf(e: Expr, input: Seq<Column>) -> bool
    decreases e,
{
    match e {
        Expr::Literal(v, t) => lit_wf(v) && (t == spec_lit_ty(v) || ((v matches LitValue::Str(_))
            && spec_str_parses_to(t.kind) && !t.nullable && ty_wf(t))),
        Expr::ColumnRef(i, t) => i < input.len() && t == input[i as int].ty,
        Expr::Unary(op, a, t) => expr_wf(*a, input) && spec_unop_ty(op, a.spec_ty()) == Some(t),
        Expr::Binary(op, a, b, t) => expr_wf(*a, input) && expr_wf(*b, input) && spec_binop_ty(
            op,
            a.spec_ty(),
            b.spec_ty(),
        ) == Some(t),
        Expr::Call(c) => {
            &&& forall|i: int| 0 <= i < c.args.len() ==> expr_wf(#[trigger] c.args[i], input)
            &&& c.kind != FnKind::Window
            &&& match c.rule {
                ReturnRule::Fixed(t) => ty_wf(t),
                ReturnRule::SameAsArg(i) => i < c.args@.len(),
            }
            &&& c.ty == spec_rule_ty(c.rule, c.kind, exprs_tys(c.args@))
        },
        Expr::Window(w) => {
            &&& forall|i: int| 0 <= i < w.args.len() ==> expr_wf(#[trigger] w.args[i], input)
            &&& forall|i: int|
                0 <= i < w.partition.len() ==> expr_wf(#[trigger] w.partition[i], input)
            &&& forall|i: int| 0 <= i < w.order.len() ==> expr_wf(#[trigger] w.order[i], input)
            &&& w.partition@.len() + w.order@.len() >= 1
            &&& forall|i: int|
                0 <= i < w.order@.len() ==> spec_is_orderable(
                    (#[trigger] w.order@[i]).spec_ty().kind,
                )
            &&& match w.rule {
                ReturnRule::Fixed(t) => ty_wf(t),
                ReturnRule::SameAsArg(i) => i < w.args@.len(),
            }
            &&& w.ty == spec_rule_ty(w.rule, FnKind::Window, exprs_tys(w.args@))
        },
    }
}

/// Well-formedness of every expression of a sequence against an input
/// schema.
pub open spec fn exprs_wf(es: Seq<Expr>, input: Seq<Column>) -> bool {
    forall|i: int| 0 <= i < es.len() ==> expr_wf(#[trigger] es[i], input)
}

/// Well-formed expressions over well-formed input columns carry
/// well-formed types.
pub proof fn lemma_expr_ty_wf(e: Expr, input: Seq<Column>)
    requires
        expr_wf(e, input),
        crate::schema::schema_types_wf(input),
    ensures
        ty_wf(e.spec_ty()),
    decreases e,
{
    match e {
        Expr::Literal(v, t) => {},
        Expr::ColumnRef(i, t) => {},
        Expr::Unary(op, a, t) => {
            lemma_expr_ty_wf(*a, input);
        },
        Expr::Binary(op, a, b, t) => {
            lemma_expr_ty_wf(*a, input);
            lemma_expr_ty_wf(*b, input);
            if spec_is_arith(op) {
                crate::types::lemma_common_ty_wf(a.spec_ty(), b.spec_ty());
            }
        },
        Expr::Call(c) => {
            match c.rule {
                ReturnRule::Fixed(t) => {},
                ReturnRule::SameAsArg(i) => {
                    lemma_expr_ty_wf(c.args[i as int], input);
                    assert(exprs_tys(c.args@)[i as int] == c.args[i as int].spec_ty());
                },
            }
        },
        Expr::Window(w) => {
            match w.rule {
                ReturnRule::Fixed(t) => {},
                ReturnRule::SameAsArg(i) => {
                    lemma_expr_ty_wf(w.args[i as int], input);
                    assert(exprs_tys(w.args@)[i as int] == w.args[i as int].spec_ty());
                },
            }
        },
    }
}

/// Whether the expression contains an aggregate function call anywhere.
pub open spec fn spec_contains_agg(e: Expr) -> bool
    decreases e,
{
    match e {
        Expr::Literal(_, _) => false,
        Expr::ColumnRef(_, _) => false,
        Expr::Unary(_, a, _) => spec_contains_agg(*a),
        Expr::Binary(_, a, b, _) => spec_contains_agg(*a) || spec_contains_agg(*b),
        Expr::Call(c) => c.kind == FnKind::Aggregate || exists|i: int|
            0 <= i < c.args.len() && spec_contains_agg(#[trigger] c.args[i]),
        Expr::Window(w) => exists|i: int|
            0 <= i < w.args.len() && spec_contains_agg(#[trigger] w.args[i]),
    }
}

/// Whether the expression contains an aggregate function call anywhere.
#[verifier::loop_isolation(false)]
pub fn contains_agg(e: &Expr) -> (r: bool)
    ensures
        r == spec_contains_agg(*e),
    decreases *e,
{
    match e {
        Expr::Literal(_, _) => false,
        Expr::ColumnRef(_, _) => false,
        Expr::Unary(_, a, _) => contains_agg(a),
        Expr::Binary(_, a, b, _) => contains_agg(a) || contains_agg(b),
        Expr::Call(c) => {
            if matches!(c.kind, FnKind::Aggregate) {
                return true;
            }
            let mut i: usize = 0;
            while i < c.args.len()
                invariant
                    i <= c.args@.len(),
                    forall|j: int| 0 <= j < i ==> !spec_contains_agg(#[trigger] c.args@[j]),
                decreases c.args@.len() - i,
            {
                if contains_agg(&c.args[i]) {
                    return true;
                }
                i = i + 1;
            }
            false
        },
        Expr::Window(w) => {
            let mut i: usize = 0;
            while i < w.args.len()
                invariant
                    i <= w.args@.len(),
                    forall|j: int| 0 <= j < i ==> !spec_contains_agg(#[trigger] w.args@[j]),
                decreases w.args@.len() - i,
            {
                if contains_agg(&w.args[i]) {
                    return true;
                }
                i = i + 1;
            }
            false
        },
    }
}

/// An expression of the externally supplied, already-parsed abstract syntax
/// tree. Column references are by name; function calls by unqualified name,
/// resolved in the statement's namespace.
#[derive(Debug, PartialEq, Eq)]
pub enum AstExpr {
    NullLit,
    BoolLit(bool),
    IntLit(i64),
    DecLit(i64, u32),
    StrLit(String),
    Col(String),
    Unary(UnOp, Box<AstExpr>),
    Binary(BinOp, Box<AstExpr>, Box<AstExpr>),
    Call(String, Vec<AstExpr>),
    Window(String, Vec<AstExpr>, Vec<AstExpr>, Vec<AstExpr>),
}

/// The built expression is the syntax tree with names resolved: same shape,
/// same operators and literal values, every column reference resolved to a
/// position carrying that name.
pub open spec fn mirrors(e: Expr, a: AstExpr, input: Seq<Column>) -> bool
    decreases a,
{
    match a {
        AstExpr::NullLit => e matches Expr::Literal(LitValue::Null, _),
        AstExpr::BoolLit(b) => e matches Expr::Literal(LitValue::Bool(b2), _) && b2 == b,
        AstExpr::IntLit(n) => e matches Expr::Literal(LitValue::Int(n2), _) && n2 == n,
        AstExpr::DecLit(m, s) => e matches Expr::Literal(LitValue::Dec(m2, s2), _) && m2 == m && s2
            == s,
        AstExpr::StrLit(s) => e matches Expr::Literal(LitValue::Str(s2), _) && s2@ == s@,
        AstExpr::Col(nm) => e matches Expr::ColumnRef(i, _) && i < input.len() && input[
            i as int
        ].name@ == nm@ && (forall|j: int|
            0 <= j < input.len() && j != i ==> (#[trigger] input[j]).name@ != nm@),
        AstExpr::Unary(op, a1) => e matches Expr::Unary(op2, e1, _) && op2 == op && mirrors(
            *e1,
            *a1,
            input,
        ),
        AstExpr::Binary(op, a1, a2) => e matches Expr::Binary(op2, e1, e2, _) && op2 == op
            && mirrors(*e1, *a1, input) && mirrors(*e2, *a2, input),
        AstExpr::Call(nm, aargs) => e matches Expr::Call(c) && c.name@ == nm@ && c.args.len()
            == aargs.len() && forall|i: int|
            0 <= i < aargs.len() ==> mirrors(c.args[i], #[trigger] aargs[i], input),
        AstExpr::Window(nm, aargs, apart, aord) => e matches Expr::Window(w) && w.name@ == nm@
            && w.args.len() == aargs.len() && w.partition.len() == apart.len() && w.order.len()
            == aord.len() && (forall|i: int|
            0 <= i < aargs.len() ==> mirrors(w.args[i], #[trigger] aargs[i], input)) && (forall|
            i: int,
        |
            0 <= i < apart.len() ==> mirrors(w.partition[i], #[trigger] apart[i], input)) && (
        forall|i: int|
            0 <= i < aord.len() ==> mirrors(w.order[i], #[trigger] aord[i], input)),
    }
}

/// The type of a literal.
pub fn lit_ty(v: &LitValue) -> (t: Ty)
    ensures
        t == spec_lit_ty(*v),
{
    match v {
        LitValue::Null => Ty { kind: TyKind::NullType, nullable: true },
        LitValue::Bool(_) => Ty { kind: TyKind::Boolean, nullable: false },
        LitValue::Int(_) => Ty { kind: TyKind::Int64, nullable: false },
        LitValue::Dec(_, s) => Ty { kind: TyKind::Decimal(MAX_LITERAL_SCALE, *s), nullable: false },
        LitValue::Str(_) => Ty { kind: TyKind::Varchar, nullable: false },
    }
}

/// The type of a unary application, or `None` on a type mismatch.
pub fn unop_ty(op: UnOp, t: &Ty) -> (r: Option<Ty>)
    ensures
        r == spec_unop_ty(op, *t),
{
    match op {
        UnOp::Neg => if is_numeric(&t.kind) {
            Some(dup_ty(t))
        } else {
            None
        },
        UnOp::Not => if matches!(t.kind, TyKind::Boolean) {
            Some(dup_ty(t))
        } else {
            None
        },
        UnOp::IsNull => Some(Ty { kind: TyKind::Boolean, nullable: false }),
    }
}

/// The type of a binary application, or `None` on a type mismatch.
pub fn binop_ty(op: BinOp, l: &Ty, r: &Ty) -> (res: Option<Ty>)
    requires
        ty_wf(*l),
        ty_wf(*r),
    ensures
        res == spec_binop_ty(op, *l, *r),
{
    let arith = matches!(op, BinOp::Add | BinOp::Sub | BinOp::Mul | BinOp::Div);
    let connective = matches!(op, BinOp::And | BinOp::Or);
    if arith {
        match common_ty(l, r) {
            Some(t) => if is_numeric(&t.kind) {
                Some(t)
            } else {
                None
            },
            None => None,
        }
    } else if connective {
        if matches!(l.kind, TyKind::Boolean) && matches!(r.kind, TyKind::Boolean) {
            Some(Ty { kind: TyKind::Boolean, nullable: l.nullable || r.nullable })
        } else {
            None
        }
    } else {
        match common_ty(l, r) {
            Some(_) => Some(Ty { kind: TyKind::Boolean, nullable: l.nullable || r.nullable }),
            None => None,
        }
    }
}

/// A structurally equal copy of a return rule.
pub fn dup_rule(r: &ReturnRule) -> (out: ReturnRule)
    ensures
        out == *r,
{
    match r {
        ReturnRule::Fixed(t) => ReturnRule::Fixed(dup_ty(t)),
        ReturnRule::SameAsArg(i) => ReturnRule::SameAsArg(*i),
    }
}

/// Retype a string literal to the other operand's kind when that kind has
/// a defined parse rule; anything else comes back unchanged. This is the
/// implicit string-literal coercion of the type system, applied where a
/// binary operation would not otherwise type.
fn retype_str_lit(e: Expr, other: &Ty) -> (r: Expr)
    requires
        ty_wf(*other),
    ensures
        forall|input: Seq<Column>| expr_wf(e, input) ==> #[trigger] expr_wf(r, input),
        forall|a: AstExpr, input: Seq<Column>|
            mirrors(e, a, input) ==> #[trigger] mirrors(r, a, input),
        ty_wf(e.spec_ty()) ==> ty_wf(r.spec_ty()),
        spec_contains_agg(r) == spec_contains_agg(e),
{
    let parses = matches!(
        other.kind,
        TyKind::Boolean | TyKind::Int32 | TyKind::Int64 | TyKind::Decimal(_, _) | TyKind::Float64
            | TyKind::Varchar | TyKind::Date | TyKind::Timestamp
    );
    if !parses {
        return e;
    }
    match e {
        Expr::Literal(LitValue::Str(s), t) => {
            let ghost olde = Expr::Literal(LitValue::Str(s), t);
            let t2 = Ty { kind: crate::types::dup_kind(&other.kind), nullable: false };
            let r0 = Expr::Literal(LitValue::Str(s), t2);
            proof {
                assert forall|a: AstExpr, input: Seq<Column>|
                    mirrors(olde, a, input) implies #[trigger] mirrors(r0, a, input) by {
                    match a {
                        AstExpr::StrLit(_) => {},
                        _ => {},
                    }
                }
            }
            r0
        },
        other_e => other_e,
    }
}

/// Build the typed expression for a syntax tree node against an input
/// schema, resolving column references by name and function calls against
/// the catalog by best-match overload resolution. Purely structural and
/// type-resolving: the result mirrors the syntax tree, is well-formed, and
/// carries a well-formed type. Errors: `UnknownColumn` for a missing or
/// ambiguous column name, `UnknownFunction`/`AmbiguousFunction` from
/// overload resolution, `TypeMismatch` for operand or literal type faults.
#[verifier::loop_isolation(false)]
pub fn build_expr(a: &AstExpr, input: &Schema, catalog: &Catalog, ns: &String) -> (r: Result<
    Expr,
    PlanError,
>)
    requires
        crate::catalog::catalog_wf(*catalog),
        crate::schema::schema_types_wf(input@),
    ensures
        match r {
            Ok(e) => expr_wf(e, input@) && mirrors(e, *a, input@) && ty_wf(e.spec_ty()),
            Err(pe) => {
                ||| pe.spec_kind() == crate::error::ErrorKind::UnknownColumn
                ||| pe.spec_kind() == crate::error::ErrorKind::UnknownFunction
                ||| pe.spec_kind() == crate::error::ErrorKind::AmbiguousFunction
                ||| pe.spec_kind() == crate::error::ErrorKind::TypeMismatch
            },
        },
    decreases *a,
{
    match a {
        AstExpr::NullLit => {
            let v = LitValue::Null;
            let t = lit_ty(&v);
            Ok(Expr::Literal(v, t))
        },
        AstExpr::BoolLit(b) => {
            let v = LitValue::Bool(*b);
            let t = lit_ty(&v);
            Ok(Expr::Literal(v, t))
        },
        AstExpr::IntLit(n) => {
            let v = LitValue::Int(*n);
            let t = lit_ty(&v);
            Ok(Expr::Literal(v, t))
        },
        AstExpr::DecLit(m, s) => {
            if *s > MAX_LITERAL_SCALE {
                Err(PlanError::TypeMismatch)
            } else {
                let v = LitValue::Dec(*m, *s);
                let t = lit_ty(&v);
                Ok(Expr::Literal(v, t))
            }
        },
        AstExpr::StrLit(s) => {
            let v = LitValue::Str(s.clone());
            let t = lit_ty(&v);
            Ok(Expr::Literal(v, t))
        },
        AstExpr::Col(nm) => match input.lookup(nm) {
            ColLookup::Unique(i) => {
                let t = dup_ty(&input.col(i).ty);
                Ok(Expr::ColumnRef(i, t))
            },
            _ => Err(PlanError::UnknownColumn(nm.clone())),
        },
        AstExpr::Unary(op, a1) => {
            let e1 = match build_expr(a1, input, catalog, ns) {
                Ok(e) => e,
                Err(pe) => {
                    return Err(pe);
                },
            };
            match unop_ty(*op, e1.ty()) {
                Some(t) => Ok(Expr::Unary(*op, Box::new(e1), t)),
                None => Err(PlanError::TypeMismatch),
            }
        },
        AstExpr::Binary(op, a1, a2) => {
            let e1 = match build_expr(a1, input, catalog, ns) {
                Ok(e) => e,
                Err(pe) => {
                    return Err(pe);
                },
            };
            let e2 = match build_expr(a2, input, catalog, ns) {
                Ok(e) => e,
                Err(pe) => {
                    return Err(pe);
                },
            };
            // string literals coerce to the other operand's kind where a
            // parse rule exists; apply before typing the operator
            let e2ty = dup_ty(e2.ty());
            let e1 = retype_str_lit(e1, &e2ty);
            let e1ty = dup_ty(e1.ty());
            let e2 = retype_str_lit(e2, &e1ty);
            proof {
                assert(expr_wf(e1, input@));
                assert(mirrors(e1, **a1, input@));
                assert(ty_wf(e1.spec_ty()));
                assert(expr_wf(e2, input@));
                assert(mirrors(e2, **a2, input@));
                assert(ty_wf(e2.spec_ty()));
            }
            match binop_ty(*op, e1.ty(), e2.ty()) {
                Some(t) => {
                    proof {
                        if spec_is_arith(*op) {
                            crate::types::lemma_common_ty_wf(e1.spec_ty(), e2.spec_ty());
                        }
                    }
                    Ok(Expr::Binary(*op, Box::new(e1), Box::new(e2), t))
                },
                None => Err(PlanError::TypeMismatch),
            }
        },
        AstExpr::Call(nm, aargs) => {
            let mut args: Vec<Expr> = Vec::new();
            let mut tys: Vec<Ty> = Vec::new();
            let mut k: usize = 0;
            while k < aargs.len()
                invariant
                    k <= aargs@.len(),
                    args@.len() == k,
                    tys@.len() == k,
                    forall|j: int| 0 <= j < k ==> expr_wf(#[trigger] args@[j], input@),
                    forall|j: int| 0 <= j < k ==> mirrors(#[trigger] args@[j], aargs@[j], input@),
                    forall|j: int| 0 <= j < k ==> (#[trigger] tys@[j]) == args@[j].spec_ty(),
                    forall|j: int| 0 <= j < k ==> ty_wf(#[trigger] tys@[j]),
                decreases aargs@.len() - k,
            {
                let e = match build_expr(&aargs[k], input, catalog, ns) {
                    Ok(e) => e,
                    Err(pe) => {
                        return Err(pe);
                    },
                };
                tys.push(dup_ty(e.ty()));
                args.push(e);
                k = k + 1;
            }
            match catalog.lookup_function(ns, nm, &tys) {
                Err(pe) => Err(pe),
                Ok((i, j)) => {
                    let f = &catalog.namespaces[i].functions[j];
                    proof {
                        assert(crate::catalog::namespace_wf(catalog.namespaces@[i as int]));
                        assert(crate::catalog::fndef_wf(*f));
                    }
                    if matches!(f.kind, FnKind::Window) {
                        return Err(PlanError::TypeMismatch);
                    }
                    let t = crate::catalog::return_ty(f, &tys);
                    proof {
                        assert(tys@ =~= exprs_tys(args@));
                    }
                    let c = CallExpr {
                        name: nm.clone(),
                        kind: f.kind,
                        rule: dup_rule(&f.ret),
                        args,
                        ty: t,
                    };
                    Ok(Expr::Call(c))
                },
            }
        },
        AstExpr::Window(nm, aargs, apart, aord) => {
            let mut args: Vec<Expr> = Vec::new();
            let mut tys: Vec<Ty> = Vec::new();
            let mut k: usize = 0;
            while k < aargs.len()
                invariant
                    k <= aargs@.len(),
                    args@.len() == k,
                    tys@.len() == k,
                    forall|j: int| 0 <= j < k ==> expr_wf(#[trigger] args@[j], input@),
                    forall|j: int| 0 <= j < k ==> mirrors(#[trigger] args@[j], aargs@[j], input@),
                    forall|j: int| 0 <= j < k ==> (#[trigger] tys@[j]) == args@[j].spec_ty(),
                    forall|j: int| 0 <= j < k ==> ty_wf(#[trigger] tys@[j]),
                decreases aargs@.len() - k,
            {
                let e = match build_expr(&aargs[k], input, catalog, ns) {
                    Ok(e) => e,
                    Err(pe) => {
                        return Err(pe);
                    },
                };
                tys.push(dup_ty(e.ty()));
                args.push(e);
                k = k + 1;
            }
            let mut partition: Vec<Expr> = Vec::new();
            let mut k2: usize = 0;
            while k2 < apart.len()
                invariant
                    k2 <= apart@.len(),
                    partition@.len() == k2,
                    forall|j: int| 0 <= j < k2 ==> expr_wf(#[trigger] partition@[j], input@),
                    forall|j: int|
                        0 <= j < k2 ==> mirrors(#[trigger] partition@[j], apart@[j], input@),
                decreases apart@.len() - k2,
            {
                let e = match build_expr(&apart[k2], input, catalog, ns) {
                    Ok(e) => e,
                    Err(pe) => {
                        return Err(pe);
                    },
                };
                partition.push(e);
                k2 = k2 + 1;
            }
            let mut order: Vec<Expr> = Vec::new();
            let mut k3: usize = 0;
            while k3 < aord.len()
                invariant
                    k3 <= aord@.len(),
                    order@.len() == k3,
                    forall|j: int| 0 <= j < k3 ==> expr_wf(#[trigger] order@[j], input@),
                    forall|j: int| 0 <= j < k3 ==> mirrors(#[trigger] order@[j], aord@[j], input@),
                    forall|j: int|
                        0 <= j < k3 ==> spec_is_orderable(
                            (#[trigger] order@[j]).spec_ty().kind,
                        ),
                decreases aord@.len() - k3,
            {
                let e = match build_expr(&aord[k3], input, catalog, ns) {
                    Ok(e) => e,
                    Err(pe) => {
                        return Err(pe);
                    },
                };
                if !is_orderable(&e.ty().kind) {
                    return Err(PlanError::TypeMismatch);
                }
                order.push(e);
                k3 = k3 + 1;
            }
            if partition.len() == 0 && order.len() == 0 {
                return Err(PlanError::TypeMismatch);
            }
            match catalog.lookup_function(ns, nm, &tys) {
                Err(pe) => Err(pe),
                Ok((i, j)) => {
                    let f = &catalog.namespaces[i].functions[j];
                    proof {
                        assert(crate::catalog::namespace_wf(catalog.namespaces@[i as int]));
                        assert(crate::catalog::fndef_wf(*f));
                    }
                    if !matches!(f.kind, FnKind::Window) {
                        return Err(PlanError::TypeMismatch);
                    }
                    let t = crate::catalog::return_ty(f, &tys);
                    proof {
                        assert(tys@ =~= exprs_tys(args@));
                    }
                    let w = WindowExpr {
                        name: nm.clone(),
                        rule: dup_rule(&f.ret),
                        args,
                        partition,
                        order,
                        ty: t,
                    };
                    Ok(Expr::Window(w))
                },
            }
        },
    }
}

} // verus!
