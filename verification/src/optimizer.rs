//! The rule-based plan rewriter.
//!
//! [`optimize`] applies a fixed, ordered rule set — constant folding,
//! predicate pushdown, projection pruning, redundant-sort elimination, and
//! statistics-driven join reordering — until no rule makes progress or a
//! bounded iteration cap is reached (exceeding the cap is not an error:
//! optimization stops at the best plan found). Every rule is
//! semantics-preserving at the schema level, returns the input unchanged
//! when its precondition is unmet, and raises no errors.

use vstd::prelude::*;

use crate::expr::BinOp;
use crate::expr::Expr;
use crate::expr::LitValue;
use crate::expr::UnOp;
use crate::expr::expr_wf;
use crate::expr::spec_contains_agg;
use crate::plan::JoinKind;
use crate::plan::PlanNode;
use crate::plan::PlanOp;
use crate::plan::plan_wf;
use crate::schema::Column;

verus! {

/// The bound on optimization passes: fixed-point search stops here on
/// pathological plans.
pub const MAX_OPT_PASSES: u64 = 64;

/// The folded value of a binary operator applied to two literals, when the
/// operands fit the operator and the result is representable. Division is
/// never folded (division by zero), and 64-bit overflow blocks folding.
pub open spec fn spec_fold_bin(op: BinOp, a: LitValue, b: LitValue) -> Option<LitValue> {
    match (a, b) {
        (LitValue::Int(x), LitValue::Int(y)) => match op {
            BinOp::Add => if i64::MIN <= x + y <= i64::MAX {
                Some(LitValue::Int((x + y) as i64))
            } else {
                None
            },
            BinOp::Sub => if i64::MIN <= x - y <= i64::MAX {
                Some(LitValue::Int((x - y) as i64))
            } else {
                None
            },
            BinOp::Mul => if i64::MIN <= x * y <= i64::MAX {
                Some(LitValue::Int((x * y) as i64))
            } else {
                None
            },
            BinOp::Eq => Some(LitValue::Bool(x == y)),
            BinOp::Ne => Some(LitValue::Bool(x != y)),
            BinOp::Lt => Some(LitValue::Bool(x < y)),
            BinOp::Le => Some(LitValue::Bool(x <= y)),
            BinOp::Gt => Some(LitValue::Bool(x > y)),
            BinOp::Ge => Some(LitValue::Bool(x >= y)),
            _ => None,
        },
        (LitValue::Bool(x), LitValue::Bool(y)) => match op {
            BinOp::And => Some(LitValue::Bool(x && y)),
            BinOp::Or => Some(LitValue::Bool(x || y)),
            _ => None,
        },
        _ => None,
    }
}

/// The folded value of a unary operator applied to a literal, when
/// representable.
pub open spec fn spec_fold_un(op: UnOp, v: LitValue) -> Option<LitValue> {
    match op {
        UnOp::Neg => match v {
            LitValue::Int(x) => if x == i64::MIN {
                None
            } else {
                Some(LitValue::Int((-x) as i64))
            },
            _ => None,
        },
        UnOp::Not => match v {
            LitValue::Bool(b) => Some(LitValue::Bool(!b)),
            _ => None,
        },
        UnOp::IsNull => match v {
            LitValue::Null => Some(LitValue::Bool(true)),
            LitValue::Bool(_) | LitValue::Int(_) | LitValue::Dec(_, _) | LitValue::Str(_) => Some(
                LitValue::Bool(false),
            ),
        },
    }
}

/// No foldable redex remains anywhere in the expression.
pub open spec fn fully_folded(e: Expr) -> bool
    decreases e,
{
    match e {
        Expr::Literal(_, _) => true,
        Expr::ColumnRef(_, _) => true,
        Expr::Unary(op, a, _) => fully_folded(*a) && (match *a {
            Expr::Literal(v, _) => spec_fold_un(op, v) is None,
            _ => true,
        }),
        Expr::Binary(op, a, b, _) => fully_folded(*a) && fully_folded(*b) && (match (*a, *b) {
            (Expr::Literal(x, _), Expr::Literal(y, _)) => spec_fold_bin(op, x, y) is None,
            _ => true,
        }),
        Expr::Call(c) => forall|i: int| 0 <= i < c.args.len() ==> fully_folded(#[trigger] c.args[i]),
        Expr::Window(w) => {
            &&& forall|i: int| 0 <= i < w.args.len() ==> fully_folded(#[trigger] w.args[i])
            &&& forall|i: int|
                0 <= i < w.partition.len() ==> fully_folded(#[trigger] w.partition[i])
            &&& forall|i: int| 0 <= i < w.order.len() ==> fully_folded(#[trigger] w.order[i])
        },
    }
}

/// Whether no foldable redex remains in the expression.
#[verifier::loop_isolation(false)]
pub fn is_folded(e: &Expr) -> (r: bool)
    ensures
        r == fully_folded(*e),
    decreases *e,
{
    match e {
        Expr::Literal(_, _) => true,
        Expr::ColumnRef(_, _) => true,
        Expr::Unary(op, a, _) => {
            if !is_folded(a) {
                return false;
            }
            match &**a {
                Expr::Literal(v, _) => matches!(fold_un(*op, v), None),
                _ => true,
            }
        },
        Expr::Binary(op, a, b, _) => {
            if !is_folded(a) || !is_folded(b) {
                return false;
            }
            match (&**a, &**b) {
                (Expr::Literal(x, _), Expr::Literal(y, _)) => matches!(fold_bin(*op, x, y), None),
                _ => true,
            }
        },
        Expr::Call(c) => {
            let mut i: usize = 0;
            while i < c.args.len()
                invariant
                    i <= c.args@.len(),
                    forall|j: int| 0 <= j < i ==> fully_folded(#[trigger] c.args@[j]),
                decreases c.args@.len() - i,
            {
                if !is_folded(&c.args[i]) {
                    return false;
                }
                i = i + 1;
            }
            true
        },
        Expr::Window(w) => {
            let mut i: usize = 0;
            while i < w.args.len()
                invariant
                    i <= w.args@.len(),
                    forall|j: int| 0 <= j < i ==> fully_folded(#[trigger] w.args@[j]),
                decreases w.args@.len() - i,
            {
                if !is_folded(&w.args[i]) {
                    return false;
                }
                i = i + 1;
            }
            let mut i2: usize = 0;
            while i2 < w.partition.len()
                invariant
                    i2 <= w.partition@.len(),
                    forall|j: int| 0 <= j < i2 ==> fully_folded(#[trigger] w.partition@[j]),
                decreases w.partition@.len() - i2,
            {
                if !is_folded(&w.partition[i2]) {
                    return false;
                }
                i2 = i2 + 1;
            }
            let mut i3: usize = 0;
            while i3 < w.order.len()
                invariant
                    i3 <= w.order@.len(),
                    forall|j: int| 0 <= j < i3 ==> fully_folded(#[trigger] w.order@[j]),
                decreases w.order@.len() - i3,
            {
                if !is_folded(&w.order[i3]) {
                    return false;
                }
                i3 = i3 + 1;
            }
            true
        },
    }
}

/// Fold every all-literal subtree of the expression into a literal,
/// type-checked: the result carries exactly the type of the node it
/// replaces, so well-formedness against any input schema is preserved.
#[verifier::loop_isolation(false)]
fn fold_expr_go(e: Expr) -> (r: Expr)
    ensures
        r.spec_ty() == e.spec_ty(),
        (e matches Expr::Window(_)) ==> (r matches Expr::Window(_)),
        forall|input: Seq<Column>| expr_wf(e, input) ==> expr_wf(r, input),
        spec_contains_agg(r) == spec_contains_agg(e),
        fully_folded(r),
    decreases e,
{
    match e {
        Expr::Literal(v, t) => Expr::Literal(v, t),
        Expr::ColumnRef(i, t) => Expr::ColumnRef(i, t),
        Expr::Unary(op, a, t) => {
            let ghost orig = Expr::Unary(op, a, t);
            let a2 = fold_expr_go(*a);
            let folded: Option<LitValue> = match &a2 {
                Expr::Literal(v, _) => fold_un(op, v),
                _ => None,
            };
            match folded {
                Some(v2) => {
                    let r0 = Expr::Literal(v2, t);
                    proof {
                        assert forall|input: Seq<Column>| expr_wf(orig, input) implies expr_wf(
                            r0,
                            input,
                        ) by {
                            assert(expr_wf(*a, input));
                            assert(expr_wf(a2, input));
                        }
                    }
                    r0
                },
                None => {
                    let r0 = Expr::Unary(op, Box::new(a2), t);
                    proof {
                        assert forall|input: Seq<Column>| expr_wf(orig, input) implies expr_wf(
                            r0,
                            input,
                        ) by {
                            assert(expr_wf(*a, input));
                            assert(expr_wf(a2, input));
                        }
                    }
                    r0
                },
            }
        },
        Expr::Binary(op, a, b, t) => {
            let ghost orig = Expr::Binary(op, a, b, t);
            let a2 = fold_expr_go(*a);
            let b2 = fold_expr_go(*b);
            let folded: Option<LitValue> = match (&a2, &b2) {
                (Expr::Literal(x, _), Expr::Literal(y, _)) => fold_bin(op, x, y),
                _ => None,
            };
            match folded {
                Some(v2) => {
                    let r0 = Expr::Literal(v2, t);
                    proof {
                        assert forall|input: Seq<Column>| expr_wf(orig, input) implies expr_wf(
                            r0,
                            input,
                        ) by {
                            assert(expr_wf(*a, input));
                            assert(expr_wf(*b, input));
                            assert(expr_wf(a2, input));
                            assert(expr_wf(b2, input));
                        }
                    }
                    r0
                },
                None => {
                    let r0 = Expr::Binary(op, Box::new(a2), Box::new(b2), t);
                    proof {
                        assert forall|input: Seq<Column>| expr_wf(orig, input) implies expr_wf(
                            r0,
                            input,
                        ) by {
                            assert(expr_wf(*a, input));
                            assert(expr_wf(*b, input));
                            assert(expr_wf(a2, input));
                            assert(expr_wf(b2, input));
                        }
                    }
                    r0
                },
            }
        },
        Expr::Call(c) => {
            let ghost orig = Expr::Call(c);
            let crate::expr::CallExpr { name, kind, rule, args, ty } = c;
            let ghost oargs = args@;
            let args2 = fold_expr_list(args);
            let c2 = crate::expr::CallExpr { name, kind, rule, args: args2, ty };
            let r0 = Expr::Call(c2);
            proof {
                assert(crate::expr::exprs_tys(c2.args@) =~= crate::expr::exprs_tys(oargs));
                assert forall|input: Seq<Column>| expr_wf(orig, input) implies expr_wf(
                    r0,
                    input,
                ) by {
                    assert(forall|j: int|
                        0 <= j < oargs.len() ==> expr_wf(#[trigger] oargs[j], input));
                    assert(forall|j: int|
                        0 <= j < c2.args@.len() ==> expr_wf(#[trigger] c2.args@[j], input));
                }
                assert(spec_contains_agg(r0) == spec_contains_agg(orig)) by {
                    if exists|i: int| 0 <= i < oargs.len() && spec_contains_agg(
                        #[trigger] oargs[i],
                    ) {
                        let i = choose|i: int|
                            0 <= i < oargs.len() && spec_contains_agg(#[trigger] oargs[i]);
                        assert(spec_contains_agg(c2.args@[i]));
                    }
                    if exists|i: int| 0 <= i < c2.args@.len() && spec_contains_agg(
                        #[trigger] c2.args@[i],
                    ) {
                        let i = choose|i: int|
                            0 <= i < c2.args@.len() && spec_contains_agg(#[trigger] c2.args@[i]);
                        assert(spec_contains_agg(oargs[i]));
                    }
                }
            }
            r0
        },
        Expr::Window(w) => {
            let ghost orig = Expr::Window(w);
            let crate::expr::WindowExpr { name, rule, args, partition, order, ty } = w;
            let ghost oargs = args@;
            let ghost opart = partition@;
            let ghost oord = order@;
            let args2 = fold_expr_list(args);
            let partition2 = fold_expr_list(partition);
            let order2 = fold_expr_list(order);
            let w2 = crate::expr::WindowExpr {
                name,
                rule,
                args: args2,
                partition: partition2,
                order: order2,
                ty,
            };
            let ghost w2g = w2;
            let r0 = Expr::Window(w2);
            proof {
                assert(r0 == Expr::Window(w2g));
                assert(crate::expr::exprs_tys(w2g.args@) =~= crate::expr::exprs_tys(oargs));
                assert forall|input: Seq<Column>| expr_wf(orig, input) implies expr_wf(
                    r0,
                    input,
                ) by {
                    assert(forall|j: int|
                        0 <= j < oargs.len() ==> expr_wf(#[trigger] oargs[j], input));
                    assert(forall|j: int|
                        0 <= j < opart.len() ==> expr_wf(#[trigger] opart[j], input));
                    assert(forall|j: int|
                        0 <= j < oord.len() ==> expr_wf(#[trigger] oord[j], input));
                    assert(forall|j: int|
                        0 <= j < w2g.args@.len() ==> expr_wf(#[trigger] w2g.args@[j], input));
                    assert(forall|j: int|
                        0 <= j < w2g.partition@.len() ==> expr_wf(
                            #[trigger] w2g.partition@[j],
                            input,
                        ));
                    assert(forall|j: int|
                        0 <= j < w2g.order@.len() ==> expr_wf(#[trigger] w2g.order@[j], input));
                    assert(forall|j: int|
                        0 <= j < w2g.order@.len() ==> crate::types::spec_is_orderable(
                            (#[trigger] w2g.order@[j]).spec_ty().kind,
                        ));
                }
                assert(spec_contains_agg(r0) == spec_contains_agg(orig)) by {
                    if exists|i: int| 0 <= i < oargs.len() && spec_contains_agg(
                        #[trigger] oargs[i],
                    ) {
                        let i = choose|i: int|
                            0 <= i < oargs.len() && spec_contains_agg(#[trigger] oargs[i]);
                        assert(spec_contains_agg(w2g.args@[i]));
                    }
                    if exists|i: int| 0 <= i < w2g.args@.len() && spec_contains_agg(
                        #[trigger] w2g.args@[i],
                    ) {
                        let i = choose|i: int|
                            0 <= i < w2g.args@.len() && spec_contains_agg(
                                #[trigger] w2g.args@[i],
                            );
                        assert(spec_contains_agg(oargs[i]));
                    }
                }
            }
            r0
        },
    }
}

/// Fold every expression of a list; see [`fold_expr_go`].
#[verifier::loop_isolation(false)]
fn fold_expr_list(es: Vec<Expr>) -> (r: Vec<Expr>)
    ensures
        r@.len() == es@.len(),
        forall|j: int|
            0 <= j < es@.len() && ((#[trigger] es@[j]) matches Expr::Window(_)) ==> (
            r@[j] matches Expr::Window(_)),
        forall|j: int| 0 <= j < es@.len() ==> (#[trigger] r@[j]).spec_ty() == es@[j].spec_ty(),
        forall|j: int, input: Seq<Column>|
            0 <= j < es@.len() && expr_wf(es@[j], input) ==> #[trigger] expr_wf(r@[j], input),
        forall|j: int|
            0 <= j < es@.len() ==> spec_contains_agg(#[trigger] r@[j]) == spec_contains_agg(
                es@[j],
            ),
        forall|j: int| 0 <= j < es@.len() ==> fully_folded(#[trigger] r@[j]),
    decreases es,
{
    let ghost oargs = es@;
    let mut out: Vec<Expr> = Vec::new();
    let mut rest = es;
    let rlen: usize = rest.len();
    proof {
        assert(oargs.len() == rlen);
    }
    let mut i: usize = 0;
    while rest.len() > 0
        invariant
            i + rest@.len() == oargs.len(),
            rest@ == oargs.skip(i as int),
            out@.len() == i,
            forall|j: int| 0 <= j < i ==> (#[trigger] out@[j]).spec_ty() == oargs[j].spec_ty(),
            forall|j: int, input: Seq<Column>|
                0 <= j < i && expr_wf(oargs[j], input) ==> #[trigger] expr_wf(out@[j], input),
            forall|j: int|
                0 <= j < i ==> spec_contains_agg(#[trigger] out@[j]) == spec_contains_agg(
                    oargs[j],
                ),
            forall|j: int| 0 <= j < i ==> fully_folded(#[trigger] out@[j]),
            forall|j: int|
                0 <= j < i && ((#[trigger] oargs[j]) matches Expr::Window(_)) ==> (
                out@[j] matches Expr::Window(_)),
        decreases rest@.len(),
    {
        proof {
            assert(rest@[0] == oargs[i as int]);
        }
        let a = rest.remove(0);
        let a2 = fold_expr_go(a);
        out.push(a2);
        i = i + 1;
    }
    out
}

/// Fold every all-literal subtree of the expression into a literal,
/// type-checked. An already fully folded expression comes back unchanged
/// and unreported; otherwise the folded expression is returned with the
/// change reported.
pub fn fold_expr(e: Expr) -> (r: (Expr, bool))
    ensures
        r.0.spec_ty() == e.spec_ty(),
        (e matches Expr::Window(_)) ==> (r.0 matches Expr::Window(_)),
        forall|input: Seq<Column>| expr_wf(e, input) ==> expr_wf(r.0, input),
        spec_contains_agg(r.0) == spec_contains_agg(e),
        fully_folded(r.0),
        !r.1 ==> r.0 == e,
        fully_folded(e) ==> !r.1,
{
    if is_folded(&e) {
        (e, false)
    } else {
        (fold_expr_go(e), true)
    }
}

/// Every column reference of the expression lies in `[lo, hi)`.
pub open spec fn refs_in(e: Expr, lo: int, hi: int) -> bool
    decreases e,
{
    match e {
        Expr::Literal(_, _) => true,
        Expr::ColumnRef(i, _) => lo <= i < hi,
        Expr::Unary(_, a, _) => refs_in(*a, lo, hi),
        Expr::Binary(_, a, b, _) => refs_in(*a, lo, hi) && refs_in(*b, lo, hi),
        Expr::Call(c) => forall|i: int| 0 <= i < c.args.len() ==> refs_in(#[trigger] c.args[i], lo, hi),
        Expr::Window(w) => {
            &&& forall|i: int| 0 <= i < w.args.len() ==> refs_in(#[trigger] w.args[i], lo, hi)
            &&& forall|i: int|
                0 <= i < w.partition.len() ==> refs_in(#[trigger] w.partition[i], lo, hi)
            &&& forall|i: int| 0 <= i < w.order.len() ==> refs_in(#[trigger] w.order[i], lo, hi)
        },
    }
}

/// Whether every column reference of the expression lies in `[lo, hi)`.
#[verifier::loop_isolation(false)]
pub fn check_refs_in(e: &Expr, lo: usize, hi: usize) -> (r: bool)
    ensures
        r == refs_in(*e, lo as int, hi as int),
    decreases *e,
{
    match e {
        Expr::Literal(_, _) => true,
        Expr::ColumnRef(i, _) => lo <= *i && *i < hi,
        Expr::Unary(_, a, _) => check_refs_in(a, lo, hi),
        Expr::Binary(_, a, b, _) => check_refs_in(a, lo, hi) && check_refs_in(b, lo, hi),
        Expr::Call(c) => {
            let mut i: usize = 0;
            while i < c.args.len()
                invariant
                    i <= c.args@.len(),
                    forall|j: int| 0 <= j < i ==> refs_in(#[trigger] c.args@[j], lo as int, hi as int),
                decreases c.args@.len() - i,
            {
                if !check_refs_in(&c.args[i], lo, hi) {
                    return false;
                }
                i = i + 1;
            }
            true
        },
        Expr::Window(w) => {
            let mut i: usize = 0;
            while i < w.args.len()
                invariant
                    i <= w.args@.len(),
                    forall|j: int| 0 <= j < i ==> refs_in(#[trigger] w.args@[j], lo as int, hi as int),
                decreases w.args@.len() - i,
            {
                if !check_refs_in(&w.args[i], lo, hi) {
                    return false;
                }
                i = i + 1;
            }
            let mut i2: usize = 0;
            while i2 < w.partition.len()
                invariant
                    i2 <= w.partition@.len(),
                    forall|j: int|
                        0 <= j < i2 ==> refs_in(#[trigger] w.partition@[j], lo as int, hi as int),
                decreases w.partition@.len() - i2,
            {
                if !check_refs_in(&w.partition[i2], lo, hi) {
                    return false;
                }
                i2 = i2 + 1;
            }
            let mut i3: usize = 0;
            while i3 < w.order.len()
                invariant
                    i3 <= w.order@.len(),
                    forall|j: int|
                        0 <= j < i3 ==> refs_in(#[trigger] w.order@[j], lo as int, hi as int),
                decreases w.order@.len() - i3,
            {
                if !check_refs_in(&w.order[i3], lo, hi) {
                    return false;
                }
                i3 = i3 + 1;
            }
            true
        },
    }
}

/// An expression whose references all fall before `n` is well-formed
/// against the first `n` columns alone, with the same type.
pub proof fn lemma_expr_wf_prefix(e: Expr, s: Seq<Column>, n: int)
    requires
        expr_wf(e, s),
        refs_in(e, 0, n),
        0 <= n <= s.len(),
    ensures
        expr_wf(e, s.take(n)),
    decreases e,
{
    match e {
        Expr::Literal(_, _) => {},
        Expr::ColumnRef(i, _) => {
            assert(s.take(n)[i as int] == s[i as int]);
        },
        Expr::Unary(_, a, _) => {
            lemma_expr_wf_prefix(*a, s, n);
        },
        Expr::Binary(_, a, b, _) => {
            lemma_expr_wf_prefix(*a, s, n);
            lemma_expr_wf_prefix(*b, s, n);
        },
        Expr::Call(c) => {
            assert forall|i: int| 0 <= i < c.args.len() implies expr_wf(
                #[trigger] c.args[i],
                s.take(n),
            ) by {
                lemma_expr_wf_prefix(c.args[i], s, n);
            }
        },
        Expr::Window(w) => {
            assert forall|i: int| 0 <= i < w.args.len() implies expr_wf(
                #[trigger] w.args[i],
                s.take(n),
            ) by {
                lemma_expr_wf_prefix(w.args[i], s, n);
            }
            assert forall|i: int| 0 <= i < w.partition.len() implies expr_wf(
                #[trigger] w.partition[i],
                s.take(n),
            ) by {
                lemma_expr_wf_prefix(w.partition[i], s, n);
            }
            assert forall|i: int| 0 <= i < w.order.len() implies expr_wf(
                #[trigger] w.order[i],
                s.take(n),
            ) by {
                lemma_expr_wf_prefix(w.order[i], s, n);
            }
        },
    }
}

/// The folded value of a binary operator on two literals.
pub fn fold_bin(op: BinOp, a: &LitValue, b: &LitValue) -> (r: Option<LitValue>)
    ensures
        r == spec_fold_bin(op, *a, *b),
{
    match (a, b) {
        (LitValue::Int(x), LitValue::Int(y)) => {
            let xw = *x as i128;
            let yw = *y as i128;
            match op {
                BinOp::Add => {
                    let s = xw + yw;
                    if i64::MIN as i128 <= s && s <= i64::MAX as i128 {
                        Some(LitValue::Int(s as i64))
                    } else {
                        None
                    }
                },
                BinOp::Sub => {
                    let s = xw - yw;
                    if i64::MIN as i128 <= s && s <= i64::MAX as i128 {
                        Some(LitValue::Int(s as i64))
                    } else {
                        None
                    }
                },
                BinOp::Mul => {
                    proof {
                        assert((xw as int) * (yw as int)
                            <= 85070591730234615865843651857942052864 && (xw as int) * (yw as int)
                            >= -85070591730234615865843651857942052864) by (nonlinear_arith)
                            requires
                                -9223372036854775808 <= xw as int <= 9223372036854775807,
                                -9223372036854775808 <= yw as int <= 9223372036854775807,
                        ;
                    }
                    let s = xw * yw;
                    if i64::MIN as i128 <= s && s <= i64::MAX as i128 {
                        Some(LitValue::Int(s as i64))
                    } else {
                        None
                    }
                },
                BinOp::Eq => Some(LitValue::Bool(x == y)),
                BinOp::Ne => Some(LitValue::Bool(x != y)),
                BinOp::Lt => Some(LitValue::Bool(x < y)),
                BinOp::Le => Some(LitValue::Bool(x <= y)),
                BinOp::Gt => Some(LitValue::Bool(x > y)),
                BinOp::Ge => Some(LitValue::Bool(x >= y)),
                _ => None,
            }
        },
        (LitValue::Bool(x), LitValue::Bool(y)) => match op {
            BinOp::And => Some(LitValue::Bool(*x && *y)),
            BinOp::Or => Some(LitValue::Bool(*x || *y)),
            _ => None,
        },
        _ => None,
    }
}

/// The conjuncts of a predicate: an AND node contributes both sides'
/// conjuncts, any other node is one conjunct.
pub open spec fn spec_conjuncts(e: Expr) -> Seq<Expr>
    decreases e,
{
    match e {
        Expr::Binary(BinOp::And, a, b, _) => spec_conjuncts(*a) + spec_conjuncts(*b),
        _ => seq![e],
    }
}

/// Every conjunct of a well-formed boolean predicate is a well-formed
/// boolean predicate.
pub proof fn lemma_conjuncts_wf(e: Expr, input: Seq<Column>)
    requires
        expr_wf(e, input),
        e.spec_ty().kind == crate::types::TyKind::Boolean,
    ensures
        forall|i: int|
            0 <= i < spec_conjuncts(e).len() ==> expr_wf(#[trigger] spec_conjuncts(e)[i], input)
                && spec_conjuncts(e)[i].spec_ty().kind == crate::types::TyKind::Boolean,
    decreases e,
{
    match e {
        Expr::Binary(BinOp::And, a, b, _) => {
            lemma_conjuncts_wf(*a, input);
            lemma_conjuncts_wf(*b, input);
            assert forall|i: int| 0 <= i < spec_conjuncts(e).len() implies expr_wf(
                #[trigger] spec_conjuncts(e)[i],
                input,
            ) && spec_conjuncts(e)[i].spec_ty().kind == crate::types::TyKind::Boolean by {
                if i < spec_conjuncts(*a).len() {
                    assert(spec_conjuncts(e)[i] == spec_conjuncts(*a)[i]);
                } else {
                    assert(spec_conjuncts(e)[i] == spec_conjuncts(*b)[i - spec_conjuncts(
                        *a,
                    ).len()]);
                }
            }
        },
        _ => {},
    }
}

/// Collect the conjuncts of a predicate into a vector.
#[verifier::loop_isolation(false)]
pub fn collect_conjuncts(e: Expr, out: &mut Vec<Expr>)
    ensures
        final(out)@ == old(out)@ + spec_conjuncts(e),
    decreases e,
{
    let is_and = matches!(e, Expr::Binary(BinOp::And, _, _, _));
    if !is_and {
        out.push(e);
        proof {
            assert(out@ =~= old(out)@ + spec_conjuncts(e));
        }
        return ;
    }
    match e {
        Expr::Binary(op, a, b, _) => {
            collect_conjuncts(*a, out);
            collect_conjuncts(*b, out);
            proof {
                assert(out@ =~= old(out)@ + spec_conjuncts(e));
            }
        },
        _ => {
            proof {
                assert(false);
            }
        },
    }
}

/// No conjunct is itself an AND node: splitting is complete.
pub proof fn lemma_conjuncts_not_and(e: Expr)
    ensures
        forall|i: int|
            0 <= i < spec_conjuncts(e).len() ==> !((#[trigger] spec_conjuncts(e)[i]) matches Expr::Binary(
                BinOp::And,
                _,
                _,
                _,
            )),
    decreases e,
{
    match e {
        Expr::Binary(BinOp::And, a, b, _) => {
            lemma_conjuncts_not_and(*a);
            lemma_conjuncts_not_and(*b);
            assert forall|i: int| 0 <= i < spec_conjuncts(e).len() implies !((
            #[trigger] spec_conjuncts(e)[i]) matches Expr::Binary(BinOp::And, _, _, _)) by {
                if i < spec_conjuncts(*a).len() {
                    assert(spec_conjuncts(e)[i] == spec_conjuncts(*a)[i]);
                } else {
                    assert(spec_conjuncts(e)[i] == spec_conjuncts(*b)[i - spec_conjuncts(
                        *a,
                    ).len()]);
                }
            }
        },
        _ => {},
    }
}

/// Rebuild one predicate from a non-empty conjunct list, with AND nodes
/// typed boolean. When no element is itself an AND node, the result's
/// conjuncts are exactly the given list.
#[verifier::loop_isolation(false)]
pub fn and_all(cs: Vec<Expr>) -> (r: Expr)
    requires
        cs@.len() > 0,
        forall|i: int| 0 <= i < cs@.len() ==> (#[trigger] cs@[i]).spec_ty().kind
            == crate::types::TyKind::Boolean,
        forall|i: int|
            0 <= i < cs@.len() ==> !((#[trigger] cs@[i]) matches Expr::Binary(
                BinOp::And,
                _,
                _,
                _,
            )),
    ensures
        r.spec_ty().kind == crate::types::TyKind::Boolean,
        spec_conjuncts(r) == cs@,
        forall|input: Seq<Column>|
            (forall|i: int| 0 <= i < cs@.len() ==> expr_wf(#[trigger] cs@[i], input)) ==> expr_wf(
                r,
                input,
            ),
{
    let ghost ocs = cs@;
    let mut rest = cs;
    let rlen: usize = rest.len();
    proof {
        assert(ocs.len() == rlen);
    }
    let mut acc = rest.remove(0);
    proof {
        assert(spec_conjuncts(acc) =~= ocs.take(1));
    }
    let mut i: usize = 1;
    while rest.len() > 0
        invariant
            1 <= i,
            i + rest@.len() == ocs.len(),
            rest@ == ocs.skip(i as int),
            acc.spec_ty().kind == crate::types::TyKind::Boolean,
            spec_conjuncts(acc) == ocs.take(i as int),
            forall|input: Seq<Column>|
                (forall|j: int| 0 <= j < ocs.len() ==> expr_wf(#[trigger] ocs[j], input))
                    ==> #[trigger] expr_wf(acc, input),
        decreases rest@.len(),
    {
        proof {
            assert(rest@[0] == ocs[i as int]);
        }
        let nxt = rest.remove(0);
        let t = crate::types::Ty {
            kind: crate::types::TyKind::Boolean,
            nullable: acc.ty().nullable || nxt.ty().nullable,
        };
        let ghost gacc = acc;
        acc = Expr::Binary(BinOp::And, Box::new(acc), Box::new(nxt), t);
        proof {
            assert(spec_conjuncts(nxt) =~= seq![nxt]);
            assert(spec_conjuncts(acc) =~= ocs.take(i as int) + seq![ocs[i as int]]);
            assert(spec_conjuncts(acc) =~= ocs.take(i + 1 as int));
            assert forall|input: Seq<Column>|
                (forall|j: int| 0 <= j < ocs.len() ==> expr_wf(#[trigger] ocs[j], input)) implies
            #[trigger] expr_wf(acc, input) by {
                assert(expr_wf(gacc, input));
                assert(expr_wf(ocs[i as int], input));
            }
        }
        i = i + 1;
    }
    proof {
        assert(ocs.take(i as int) =~= ocs);
    }
    acc
}

/// Rewrite an expression that only references columns at or after `cut` so
/// that it references the same columns of the right-hand schema alone.
#[verifier::loop_isolation(false)]
pub fn shift_down(e: Expr, cut: usize) -> (r: Expr)
    requires
        refs_in(e, cut as int, usize::MAX as int + 1),
    ensures
        r.spec_ty() == e.spec_ty(),
        (r matches Expr::Binary(BinOp::And, _, _, _)) ==> (e matches Expr::Binary(
            BinOp::And,
            _,
            _,
            _,
        )),
        forall|l: Seq<Column>, r2: Seq<Column>|
            l.len() == cut && #[trigger] expr_wf(e, l + r2) ==> expr_wf(r, r2),
        spec_contains_agg(r) == spec_contains_agg(e),
    decreases e,
{
    match e {
        Expr::Literal(v, t) => Expr::Literal(v, t),
        Expr::ColumnRef(i, t) => {
            let r0 = Expr::ColumnRef(i - cut, t);
            proof {
                assert forall|l: Seq<Column>, r2: Seq<Column>|
                    l.len() == cut && #[trigger] expr_wf(e, l + r2) implies expr_wf(r0, r2) by {
                    assert((l + r2)[i as int] == r2[i - cut]);
                }
            }
            r0
        },
        Expr::Unary(op, a, t) => {
            let ghost orig = Expr::Unary(op, a, t);
            let a2 = shift_down(*a, cut);
            let r0 = Expr::Unary(op, Box::new(a2), t);
            proof {
                assert forall|l: Seq<Column>, r2: Seq<Column>|
                    l.len() == cut && #[trigger] expr_wf(orig, l + r2) implies expr_wf(r0, r2) by {
                    assert(expr_wf(*a, l + r2));
                    assert(expr_wf(a2, r2));
                }
            }
            r0
        },
        Expr::Binary(op, a, b, t) => {
            let ghost orig = Expr::Binary(op, a, b, t);
            let a2 = shift_down(*a, cut);
            let b2 = shift_down(*b, cut);
            let r0 = Expr::Binary(op, Box::new(a2), Box::new(b2), t);
            proof {
                assert forall|l: Seq<Column>, r2: Seq<Column>|
                    l.len() == cut && #[trigger] expr_wf(orig, l + r2) implies expr_wf(r0, r2) by {
                    assert(expr_wf(*a, l + r2));
                    assert(expr_wf(*b, l + r2));
                    assert(expr_wf(a2, r2));
                    assert(expr_wf(b2, r2));
                }
            }
            r0
        },
        Expr::Call(c) => {
            let ghost orig = Expr::Call(c);
            let crate::expr::CallExpr { name, kind, rule, args, ty } = c;
            let ghost oargs = args@;
            let args2 = shift_down_list(args, cut);
            let c2 = crate::expr::CallExpr { name, kind, rule, args: args2, ty };
            let ghost gc2 = c2;
            let r0 = Expr::Call(c2);
            proof {
                assert(crate::expr::exprs_tys(gc2.args@) =~= crate::expr::exprs_tys(oargs));
                assert forall|l: Seq<Column>, r2: Seq<Column>|
                    l.len() == cut && #[trigger] expr_wf(orig, l + r2) implies expr_wf(r0, r2) by {
                    assert(forall|j: int|
                        0 <= j < oargs.len() ==> expr_wf(#[trigger] oargs[j], l + r2));
                    assert(forall|j: int|
                        0 <= j < gc2.args@.len() ==> expr_wf(#[trigger] gc2.args@[j], r2));
                }
                assert(spec_contains_agg(r0) == spec_contains_agg(orig)) by {
                    if exists|i: int| 0 <= i < oargs.len() && spec_contains_agg(
                        #[trigger] oargs[i],
                    ) {
                        let i = choose|i: int|
                            0 <= i < oargs.len() && spec_contains_agg(#[trigger] oargs[i]);
                        assert(spec_contains_agg(gc2.args@[i]));
                    }
                    if exists|i: int| 0 <= i < gc2.args@.len() && spec_contains_agg(
                        #[trigger] gc2.args@[i],
                    ) {
                        let i = choose|i: int|
                            0 <= i < gc2.args@.len() && spec_contains_agg(
                                #[trigger] gc2.args@[i],
                            );
                        assert(spec_contains_agg(oargs[i]));
                    }
                }
            }
            r0
        },
        Expr::Window(w) => {
            let ghost orig = Expr::Window(w);
            let crate::expr::WindowExpr { name, rule, args, partition, order, ty } = w;
            let ghost oargs = args@;
            let ghost opart = partition@;
            let ghost oord = order@;
            let args2 = shift_down_list(args, cut);
            let partition2 = shift_down_list(partition, cut);
            let order2 = shift_down_list(order, cut);
            let w2 = crate::expr::WindowExpr {
                name,
                rule,
                args: args2,
                partition: partition2,
                order: order2,
                ty,
            };
            let ghost gw2 = w2;
            let r0 = Expr::Window(w2);
            proof {
                assert(crate::expr::exprs_tys(gw2.args@) =~= crate::expr::exprs_tys(oargs));
                assert forall|l: Seq<Column>, r2: Seq<Column>|
                    l.len() == cut && #[trigger] expr_wf(orig, l + r2) implies expr_wf(r0, r2) by {
                    assert(forall|j: int|
                        0 <= j < oargs.len() ==> expr_wf(#[trigger] oargs[j], l + r2));
                    assert(forall|j: int|
                        0 <= j < opart.len() ==> expr_wf(#[trigger] opart[j], l + r2));
                    assert(forall|j: int|
                        0 <= j < oord.len() ==> expr_wf(#[trigger] oord[j], l + r2));
                    assert(forall|j: int|
                        0 <= j < gw2.args@.len() ==> expr_wf(#[trigger] gw2.args@[j], r2));
                    assert(forall|j: int|
                        0 <= j < gw2.partition@.len() ==> expr_wf(
                            #[trigger] gw2.partition@[j],
                            r2,
                        ));
                    assert(forall|j: int|
                        0 <= j < gw2.order@.len() ==> expr_wf(#[trigger] gw2.order@[j], r2));
                    assert(forall|j: int|
                        0 <= j < gw2.order@.len() ==> crate::types::spec_is_orderable(
                            (#[trigger] gw2.order@[j]).spec_ty().kind,
                        ));
                }
                assert(spec_contains_agg(r0) == spec_contains_agg(orig)) by {
                    if exists|i: int| 0 <= i < oargs.len() && spec_contains_agg(
                        #[trigger] oargs[i],
                    ) {
                        let i = choose|i: int|
                            0 <= i < oargs.len() && spec_contains_agg(#[trigger] oargs[i]);
                        assert(spec_contains_agg(gw2.args@[i]));
                    }
                    if exists|i: int| 0 <= i < gw2.args@.len() && spec_contains_agg(
                        #[trigger] gw2.args@[i],
                    ) {
                        let i = choose|i: int|
                            0 <= i < gw2.args@.len() && spec_contains_agg(
                                #[trigger] gw2.args@[i],
                            );
                        assert(spec_contains_agg(oargs[i]));
                    }
                }
            }
            r0
        },
    }
}

/// Shift every expression of a list; see [`shift_down`].
#[verifier::loop_isolation(false)]
fn shift_down_list(es: Vec<Expr>, cut: usize) -> (r: Vec<Expr>)
    requires
        forall|j: int|
            0 <= j < es@.len() ==> refs_in(#[trigger] es@[j], cut as int, usize::MAX as int + 1),
    ensures
        r@.len() == es@.len(),
        forall|j: int| 0 <= j < es@.len() ==> (#[trigger] r@[j]).spec_ty() == es@[j].spec_ty(),
        forall|j: int, l: Seq<Column>, r2: Seq<Column>|
            0 <= j < es@.len() && l.len() == cut && #[trigger] expr_wf(es@[j], l + r2)
                ==> expr_wf(r@[j], r2),
        forall|j: int|
            0 <= j < es@.len() ==> spec_contains_agg(#[trigger] r@[j]) == spec_contains_agg(
                es@[j],
            ),
    decreases es,
{
    let ghost oargs = es@;
    let mut out: Vec<Expr> = Vec::new();
    let mut rest = es;
    let rlen: usize = rest.len();
    proof {
        assert(oargs.len() == rlen);
    }
    let mut i: usize = 0;
    while rest.len() > 0
        invariant
            i + rest@.len() == oargs.len(),
            rest@ == oargs.skip(i as int),
            out@.len() == i,
            forall|j: int| 0 <= j < i ==> (#[trigger] out@[j]).spec_ty() == oargs[j].spec_ty(),
            forall|j: int, l: Seq<Column>, r2: Seq<Column>|
                0 <= j < i && l.len() == cut && #[trigger] expr_wf(oargs[j], l + r2) ==> expr_wf(
                    out@[j],
                    r2,
                ),
            forall|j: int|
                0 <= j < i ==> spec_contains_agg(#[trigger] out@[j]) == spec_contains_agg(
                    oargs[j],
                ),
        decreases rest@.len(),
    {
        proof {
            assert(rest@[0] == oargs[i as int]);
        }
        let a = rest.remove(0);
        let a2 = shift_down(a, cut);
        out.push(a2);
        i = i + 1;
    }
    out
}

/// The folded value of a unary operator on a literal.
pub fn fold_un(op: UnOp, v: &LitValue) -> (r: Option<LitValue>)
    ensures
        r == spec_fold_un(op, *v),
{
    match op {
        UnOp::Neg => match v {
            LitValue::Int(x) => if *x == i64::MIN {
                None
            } else {
                Some(LitValue::Int(-*x))
            },
            _ => None,
        },
        UnOp::Not => match v {
            LitValue::Bool(b) => Some(LitValue::Bool(!*b)),
            _ => None,
        },
        UnOp::IsNull => match v {
            LitValue::Null => Some(LitValue::Bool(true)),
            _ => Some(LitValue::Bool(false)),
        },
    }
}

/// The saturation bound for cardinality estimates.
pub const EST_CAP: u64 = 0xffff_ffff_ffff_ffff;

/// The statistics-derived selectivity divisor of an inner join: when the
/// condition is an equality of two column references and both inputs are
/// scans with statistics, the larger distinct-count estimate of the two
/// join keys; one otherwise (no guessing).
pub open spec fn spec_join_divisor(cond: Expr, l: PlanNode, r: PlanNode) -> int {
    match cond {
        Expr::Binary(BinOp::Eq, a, b, _) => match (*a, *b) {
            (Expr::ColumnRef(i, _), Expr::ColumnRef(j, _)) => match (l.op, r.op) {
                (PlanOp::Scan(tl), PlanOp::Scan(tr)) => match (tl.stats, tr.stats) {
                    (Some(sl), Some(sr)) => {
                        let k = j - l.schema@.len();
                        if i < sl.col_stats@.len() && 0 <= k < sr.col_stats@.len() {
                            let dl = sl.col_stats@[i as int].distinct_count as int;
                            let dr = sr.col_stats@[k].distinct_count as int;
                            let d = if dl >= dr {
                                dl
                            } else {
                                dr
                            };
                            if d >= 1 {
                                d
                            } else {
                                1
                            }
                        } else {
                            1
                        }
                    },
                    _ => 1,
                },
                _ => 1,
            },
            _ => 1,
        },
        _ => 1,
    }
}

/// The estimated output cardinality of a plan, from table statistics:
/// `None` when statistics are missing anywhere below. Inner joins multiply
/// their inputs' estimates and divide by the join-key selectivity divisor;
/// estimates saturate at [`EST_CAP`].
pub open spec fn spec_est(p: PlanNode) -> Option<int>
    decreases p,
{
    match p.op {
        PlanOp::Scan(t) => match t.stats {
            Some(s) => Some(s.row_count as int),
            None => None,
        },
        PlanOp::Filter(_, input) => spec_est(*input),
        PlanOp::Project(_, _, input) => spec_est(*input),
        PlanOp::Sort(_, input) => spec_est(*input),
        PlanOp::Window(_, _, input) => spec_est(*input),
        PlanOp::Limit(n, input) => match spec_est(*input) {
            Some(e) => Some(
                if e <= n {
                    e
                } else {
                    n as int
                },
            ),
            None => None,
        },
        PlanOp::Union(l, r) => match (spec_est(*l), spec_est(*r)) {
            (Some(a), Some(b)) => Some(
                if a + b <= EST_CAP {
                    a + b
                } else {
                    EST_CAP as int
                },
            ),
            _ => None,
        },
        PlanOp::Join(kind, cond, l, r) => if kind == JoinKind::Inner {
            match (spec_est(*l), spec_est(*r)) {
                (Some(a), Some(b)) => {
                    let d = spec_join_divisor(cond, *l, *r);
                    let v = a * b / d;
                    Some(
                        if v <= EST_CAP {
                            v
                        } else {
                            EST_CAP as int
                        },
                    )
                },
                _ => None,
            }
        } else {
            None
        },
        PlanOp::Aggregate(_, _, _, _) => None,
    }
}

/// The estimated output cardinality of a plan; see [`spec_est`].
#[verifier::loop_isolation(false)]
pub fn est(p: &PlanNode) -> (r: Option<u64>)
    ensures
        match r {
            Some(v) => spec_est(*p) == Some(v as int),
            None => spec_est(*p) is None,
        },
    decreases *p,
{
    match &p.op {
        PlanOp::Scan(t) => match &t.stats {
            Some(s) => Some(s.row_count),
            None => None,
        },
        PlanOp::Filter(_, input) => est(input),
        PlanOp::Project(_, _, input) => est(input),
        PlanOp::Sort(_, input) => est(input),
        PlanOp::Window(_, _, input) => est(input),
        PlanOp::Limit(n, input) => match est(input) {
            Some(e) => Some(if e <= *n {
                e
            } else {
                *n
            }),
            None => None,
        },
        PlanOp::Union(l, r) => match (est(l), est(r)) {
            (Some(a), Some(b)) => {
                let s: u128 = a as u128 + b as u128;
                if s <= EST_CAP as u128 {
                    Some(s as u64)
                } else {
                    Some(EST_CAP)
                }
            },
            _ => None,
        },
        PlanOp::Join(kind, cond, l, r) => {
            if !matches!(kind, JoinKind::Inner) {
                return None;
            }
            match (est(l), est(r)) {
                (Some(a), Some(b)) => {
                    let d: u64 = join_divisor(cond, l, r);
                    proof {
                        assert((a as u128) * (b as u128)
                            <= 340282366920938463426481119284349108225) by (nonlinear_arith)
                            requires
                                a as u128 <= 18446744073709551615,
                                b as u128 <= 18446744073709551615,
                        ;
                    }
                    let v: u128 = (a as u128) * (b as u128) / (d as u128);
                    proof {
                        assert((a as int) * (b as int) == (a as u128) * (b as u128));
                        assert(spec_join_divisor(*cond, **l, **r) == d as int);
                    }
                    if v <= EST_CAP as u128 {
                        Some(v as u64)
                    } else {
                        Some(EST_CAP)
                    }
                },
                _ => None,
            }
        },
        PlanOp::Aggregate(_, _, _, _) => None,
    }
}

/// The join-key selectivity divisor; see [`spec_join_divisor`].
pub fn join_divisor(cond: &Expr, l: &PlanNode, r: &PlanNode) -> (d: u64)
    ensures
        d as int == spec_join_divisor(*cond, *l, *r),
        d >= 1,
{
    match cond {
        Expr::Binary(BinOp::Eq, a, b, _) => match (&**a, &**b) {
            (Expr::ColumnRef(i, _), Expr::ColumnRef(j, _)) => match (&l.op, &r.op) {
                (PlanOp::Scan(tl), PlanOp::Scan(tr)) => match (&tl.stats, &tr.stats) {
                    (Some(sl), Some(sr)) => {
                        let llen = l.schema.len();
                        if *i < sl.col_stats.len() && *j >= llen && *j - llen < sr.col_stats.len() {
                            let dl = sl.col_stats[*i].distinct_count;
                            let dr = sr.col_stats[*j - llen].distinct_count;
                            let d = if dl >= dr {
                                dl
                            } else {
                                dr
                            };
                            if d >= 1 {
                                d
                            } else {
                                1
                            }
                        } else {
                            1
                        }
                    },
                    _ => 1,
                },
                _ => 1,
            },
            _ => 1,
        },
        _ => 1,
    }
}

/// A well-formed expression only references columns of its input schema.
pub proof fn lemma_wf_refs(e: Expr, s: Seq<Column>)
    requires
        expr_wf(e, s),
    ensures
        refs_in(e, 0, s.len() as int),
    decreases e,
{
    match e {
        Expr::Literal(_, _) => {},
        Expr::ColumnRef(_, _) => {},
        Expr::Unary(_, a, _) => {
            lemma_wf_refs(*a, s);
        },
        Expr::Binary(_, a, b, _) => {
            lemma_wf_refs(*a, s);
            lemma_wf_refs(*b, s);
        },
        Expr::Call(c) => {
            assert forall|i: int| 0 <= i < c.args.len() implies refs_in(
                #[trigger] c.args[i],
                0,
                s.len() as int,
            ) by {
                lemma_wf_refs(c.args[i], s);
            }
        },
        Expr::Window(w) => {
            assert forall|i: int| 0 <= i < w.args.len() implies refs_in(
                #[trigger] w.args[i],
                0,
                s.len() as int,
            ) by {
                lemma_wf_refs(w.args[i], s);
            }
            assert forall|i: int| 0 <= i < w.partition.len() implies refs_in(
                #[trigger] w.partition[i],
                0,
                s.len() as int,
            ) by {
                lemma_wf_refs(w.partition[i], s);
            }
            assert forall|i: int| 0 <= i < w.order.len() implies refs_in(
                #[trigger] w.order[i],
                0,
                s.len() as int,
            ) by {
                lemma_wf_refs(w.order[i], s);
            }
        },
    }
}

/// Reference bounds widen.
pub proof fn lemma_refs_in_widen(e: Expr, lo: int, hi: int, lo2: int, hi2: int)
    requires
        refs_in(e, lo, hi),
        lo2 <= lo,
        hi <= hi2,
    ensures
        refs_in(e, lo2, hi2),
    decreases e,
{
    match e {
        Expr::Literal(_, _) => {},
        Expr::ColumnRef(_, _) => {},
        Expr::Unary(_, a, _) => {
            lemma_refs_in_widen(*a, lo, hi, lo2, hi2);
        },
        Expr::Binary(_, a, b, _) => {
            lemma_refs_in_widen(*a, lo, hi, lo2, hi2);
            lemma_refs_in_widen(*b, lo, hi, lo2, hi2);
        },
        Expr::Call(c) => {
            assert forall|i: int| 0 <= i < c.args.len() implies refs_in(
                #[trigger] c.args[i],
                lo2,
                hi2,
            ) by {
                lemma_refs_in_widen(c.args[i], lo, hi, lo2, hi2);
            }
        },
        Expr::Window(w) => {
            assert forall|i: int| 0 <= i < w.args.len() implies refs_in(
                #[trigger] w.args[i],
                lo2,
                hi2,
            ) by {
                lemma_refs_in_widen(w.args[i], lo, hi, lo2, hi2);
            }
            assert forall|i: int| 0 <= i < w.partition.len() implies refs_in(
                #[trigger] w.partition[i],
                lo2,
                hi2,
            ) by {
                lemma_refs_in_widen(w.partition[i], lo, hi, lo2, hi2);
            }
            assert forall|i: int| 0 <= i < w.order.len() implies refs_in(
                #[trigger] w.order[i],
                lo2,
                hi2,
            ) by {
                lemma_refs_in_widen(w.order[i], lo, hi, lo2, hi2);
            }
        },
    }
}

/// Rewrite an expression over a two-part schema so that it reads the same
/// columns after the two parts are swapped.
#[verifier::loop_isolation(false)]
pub fn remap_swap(e: Expr, llen: usize, rlen: usize) -> (r: Expr)
    requires
        llen + rlen <= usize::MAX,
        refs_in(e, 0, llen + rlen),
    ensures
        r.spec_ty() == e.spec_ty(),
        forall|l: Seq<Column>, r2: Seq<Column>|
            l.len() == llen && r2.len() == rlen && #[trigger] expr_wf(e, l + r2) ==> expr_wf(
                r,
                r2 + l,
            ),
    decreases e,
{
    match e {
        Expr::Literal(v, t) => Expr::Literal(v, t),
        Expr::ColumnRef(i, t) => {
            let i2: usize = if i < llen {
                i + rlen
            } else {
                i - llen
            };
            let r0 = Expr::ColumnRef(i2, t);
            proof {
                assert forall|l: Seq<Column>, r2: Seq<Column>|
                    l.len() == llen && r2.len() == rlen && #[trigger] expr_wf(e, l + r2) implies
                expr_wf(r0, r2 + l) by {
                    if i < llen {
                        assert((l + r2)[i as int] == (r2 + l)[i2 as int]);
                    } else {
                        assert((l + r2)[i as int] == (r2 + l)[i2 as int]);
                    }
                }
            }
            r0
        },
        Expr::Unary(op, a, t) => {
            let ghost orig = Expr::Unary(op, a, t);
            let a2 = remap_swap(*a, llen, rlen);
            let r0 = Expr::Unary(op, Box::new(a2), t);
            proof {
                assert forall|l: Seq<Column>, r2: Seq<Column>|
                    l.len() == llen && r2.len() == rlen && #[trigger] expr_wf(orig, l + r2) implies
                expr_wf(r0, r2 + l) by {
                    assert(expr_wf(*a, l + r2));
                    assert(expr_wf(a2, r2 + l));
                }
            }
            r0
        },
        Expr::Binary(op, a, b, t) => {
            let ghost orig = Expr::Binary(op, a, b, t);
            let a2 = remap_swap(*a, llen, rlen);
            let b2 = remap_swap(*b, llen, rlen);
            let r0 = Expr::Binary(op, Box::new(a2), Box::new(b2), t);
            proof {
                assert forall|l: Seq<Column>, r2: Seq<Column>|
                    l.len() == llen && r2.len() == rlen && #[trigger] expr_wf(orig, l + r2) implies
                expr_wf(r0, r2 + l) by {
                    assert(expr_wf(*a, l + r2));
                    assert(expr_wf(*b, l + r2));
                    assert(expr_wf(a2, r2 + l));
                    assert(expr_wf(b2, r2 + l));
                }
            }
            r0
        },
        Expr::Call(c) => {
            let ghost orig = Expr::Call(c);
            let crate::expr::CallExpr { name, kind, rule, args, ty } = c;
            let ghost oargs = args@;
            let args2 = remap_swap_list(args, llen, rlen);
            let c2 = crate::expr::CallExpr { name, kind, rule, args: args2, ty };
            let ghost gc2 = c2;
            let r0 = Expr::Call(c2);
            proof {
                assert(crate::expr::exprs_tys(gc2.args@) =~= crate::expr::exprs_tys(oargs));
                assert forall|l: Seq<Column>, r2: Seq<Column>|
                    l.len() == llen && r2.len() == rlen && #[trigger] expr_wf(orig, l + r2) implies
                expr_wf(r0, r2 + l) by {
                    assert(forall|j: int|
                        0 <= j < oargs.len() ==> expr_wf(#[trigger] oargs[j], l + r2));
                    assert(forall|j: int|
                        0 <= j < gc2.args@.len() ==> expr_wf(#[trigger] gc2.args@[j], r2 + l));
                }
            }
            r0
        },
        Expr::Window(w) => {
            let ghost orig = Expr::Window(w);
            let crate::expr::WindowExpr { name, rule, args, partition, order, ty } = w;
            let ghost oargs = args@;
            let ghost opart = partition@;
            let ghost oord = order@;
            let args2 = remap_swap_list(args, llen, rlen);
            let partition2 = remap_swap_list(partition, llen, rlen);
            let order2 = remap_swap_list(order, llen, rlen);
            let w2 = crate::expr::WindowExpr {
                name,
                rule,
                args: args2,
                partition: partition2,
                order: order2,
                ty,
            };
            let ghost gw2 = w2;
            let r0 = Expr::Window(w2);
            proof {
                assert(crate::expr::exprs_tys(gw2.args@) =~= crate::expr::exprs_tys(oargs));
                assert forall|l: Seq<Column>, r2: Seq<Column>|
                    l.len() == llen && r2.len() == rlen && #[trigger] expr_wf(orig, l + r2) implies
                expr_wf(r0, r2 + l) by {
                    assert(forall|j: int|
                        0 <= j < oargs.len() ==> expr_wf(#[trigger] oargs[j], l + r2));
                    assert(forall|j: int|
                        0 <= j < opart.len() ==> expr_wf(#[trigger] opart[j], l + r2));
                    assert(forall|j: int|
                        0 <= j < oord.len() ==> expr_wf(#[trigger] oord[j], l + r2));
                    assert(forall|j: int|
                        0 <= j < gw2.args@.len() ==> expr_wf(#[trigger] gw2.args@[j], r2 + l));
                    assert(forall|j: int|
                        0 <= j < gw2.partition@.len() ==> expr_wf(
                            #[trigger] gw2.partition@[j],
                            r2 + l,
                        ));
                    assert(forall|j: int|
                        0 <= j < gw2.order@.len() ==> expr_wf(#[trigger] gw2.order@[j], r2 + l));
                    assert(forall|j: int|
                        0 <= j < gw2.order@.len() ==> crate::types::spec_is_orderable(
                            (#[trigger] gw2.order@[j]).spec_ty().kind,
                        ));
                }
            }
            r0
        },
    }
}

/// Remap every expression of a list; see [`remap_swap`].
#[verifier::loop_isolation(false)]
fn remap_swap_list(es: Vec<Expr>, llen: usize, rlen: usize) -> (r: Vec<Expr>)
    requires
        llen + rlen <= usize::MAX,
        forall|j: int| 0 <= j < es@.len() ==> refs_in(#[trigger] es@[j], 0, llen + rlen),
    ensures
        r@.len() == es@.len(),
        forall|j: int| 0 <= j < es@.len() ==> (#[trigger] r@[j]).spec_ty() == es@[j].spec_ty(),
        forall|j: int, l: Seq<Column>, r2: Seq<Column>|
            0 <= j < es@.len() && l.len() == llen && r2.len() == rlen && #[trigger] expr_wf(
                es@[j],
                l + r2,
            ) ==> expr_wf(r@[j], r2 + l),
    decreases es,
{
    let ghost oargs = es@;
    let mut out: Vec<Expr> = Vec::new();
    let mut rest = es;
    let rlen0: usize = rest.len();
    proof {
        assert(oargs.len() == rlen0);
    }
    let mut i: usize = 0;
    while rest.len() > 0
        invariant
            i + rest@.len() == oargs.len(),
            rest@ == oargs.skip(i as int),
            out@.len() == i,
            forall|j: int| 0 <= j < i ==> (#[trigger] out@[j]).spec_ty() == oargs[j].spec_ty(),
            forall|j: int, l: Seq<Column>, r2: Seq<Column>|
                0 <= j < i && l.len() == llen && r2.len() == rlen && #[trigger] expr_wf(
                    oargs[j],
                    l + r2,
                ) ==> expr_wf(out@[j], r2 + l),
        decreases rest@.len(),
    {
        proof {
            assert(rest@[0] == oargs[i as int]);
        }
        let a = rest.remove(0);
        let a2 = remap_swap(a, llen, rlen);
        out.push(a2);
        i = i + 1;
    }
    out
}

/// A conjunct that references only one join side: only left-input columns,
/// or only right-input columns.
pub open spec fn side_local(c: Expr, llen: int, rlen: int) -> bool {
    refs_in(c, 0, llen) || refs_in(c, llen, llen + rlen)
}

/// Whether some conjunct of the predicate is side-local.
#[verifier::loop_isolation(false)]
pub fn any_side_local(e: &Expr, llen: usize, rlen: usize) -> (r: bool)
    requires
        llen + rlen <= usize::MAX,
    ensures
        r == exists|i: int|
            0 <= i < spec_conjuncts(*e).len() && side_local(
                #[trigger] spec_conjuncts(*e)[i],
                llen as int,
                rlen as int,
            ),
    decreases *e,
{
    let is_and = matches!(e, Expr::Binary(BinOp::And, _, _, _));
    if !is_and {
        let r = check_refs_in(e, 0, llen) || check_refs_in(e, llen, llen + rlen);
        proof {
            assert(spec_conjuncts(*e) =~= seq![*e]);
            if r {
                assert(side_local(spec_conjuncts(*e)[0], llen as int, rlen as int));
            }
        }
        return r;
    }
    match e {
        Expr::Binary(op, a, b, _) => {
            let ra = any_side_local(a, llen, rlen);
            let rb = any_side_local(b, llen, rlen);
            proof {
                let ca = spec_conjuncts(**a);
                let cb = spec_conjuncts(**b);
                assert(spec_conjuncts(*e) == ca + cb);
                if ra {
                    let i = choose|i: int|
                        0 <= i < ca.len() && side_local(#[trigger] ca[i], llen as int, rlen as int);
                    assert(spec_conjuncts(*e)[i] == ca[i]);
                }
                if rb {
                    let i = choose|i: int|
                        0 <= i < cb.len() && side_local(#[trigger] cb[i], llen as int, rlen as int);
                    assert(spec_conjuncts(*e)[ca.len() + i] == cb[i]);
                }
                if !ra && !rb {
                    assert forall|i: int|
                        0 <= i < spec_conjuncts(*e).len() implies !side_local(
                        #[trigger] spec_conjuncts(*e)[i],
                        llen as int,
                        rlen as int,
                    ) by {
                        if i < ca.len() {
                            assert(spec_conjuncts(*e)[i] == ca[i]);
                        } else {
                            assert(spec_conjuncts(*e)[i] == cb[i - ca.len()]);
                        }
                    }
                }
            }
            ra || rb
        },
        _ => {
            proof {
                assert(false);
            }
            false
        },
    }
}

/// One sort key makes the other redundant: same direction, same column
/// reference.
pub open spec fn key_matches(a: crate::plan::SortKey, b: crate::plan::SortKey) -> bool {
    a.asc == b.asc && match (a.expr, b.expr) {
        (Expr::ColumnRef(i, _), Expr::ColumnRef(j, _)) => i == j,
        _ => false,
    }
}

/// The first key list is a prefix of the second (the second orders at
/// least as finely).
pub open spec fn key_prefix(k1: Seq<crate::plan::SortKey>, k2: Seq<crate::plan::SortKey>) -> bool {
    k1.len() <= k2.len() && forall|i: int| 0 <= i < k1.len() ==> key_matches(#[trigger] k1[i], k2[i])
}

/// Whether the first key list is a prefix of the second.
#[verifier::loop_isolation(false)]
pub fn keys_prefix(k1: &Vec<crate::plan::SortKey>, k2: &Vec<crate::plan::SortKey>) -> (r: bool)
    ensures
        r == key_prefix(k1@, k2@),
{
    if k1.len() > k2.len() {
        return false;
    }
    let mut i: usize = 0;
    while i < k1.len()
        invariant
            i <= k1@.len(),
            k1@.len() <= k2@.len(),
            forall|j: int| 0 <= j < i ==> key_matches(#[trigger] k1@[j], k2@[j]),
        decreases k1@.len() - i,
    {
        let a = &k1[i];
        let b = &k2[i];
        let m = a.asc == b.asc && match (&a.expr, &b.expr) {
            (Expr::ColumnRef(x, _), Expr::ColumnRef(y, _)) => x == y,
            _ => false,
        };
        if !m {
            return false;
        }
        i = i + 1;
    }
    true
}

/// Every expression of both lists references only columns before `n`.
pub open spec fn groups_aggs_within(g: Seq<Expr>, a: Seq<Expr>, n: int) -> bool {
    (forall|i: int| 0 <= i < g.len() ==> refs_in(#[trigger] g[i], 0, n)) && (forall|i: int|
        0 <= i < a.len() ==> refs_in(#[trigger] a[i], 0, n))
}

/// Whether every expression of both lists references only columns before
/// `n`.
#[verifier::loop_isolation(false)]
pub fn check_within(g: &Vec<Expr>, a: &Vec<Expr>, n: usize) -> (r: bool)
    ensures
        r == groups_aggs_within(g@, a@, n as int),
{
    let mut i: usize = 0;
    while i < g.len()
        invariant
            i <= g@.len(),
            forall|j: int| 0 <= j < i ==> refs_in(#[trigger] g@[j], 0, n as int),
        decreases g@.len() - i,
    {
        if !check_refs_in(&g[i], 0, n) {
            return false;
        }
        i = i + 1;
    }
    let mut k: usize = 0;
    while k < a.len()
        invariant
            k <= a@.len(),
            forall|j: int| 0 <= j < k ==> refs_in(#[trigger] a@[j], 0, n as int),
        decreases a@.len() - k,
    {
        if !check_refs_in(&a[k], 0, n) {
            return false;
        }
        k = k + 1;
    }
    true
}

/// The constant-folding opportunity at one node: some expression the node
/// carries is not fully folded.
pub open spec fn node_exprs_folded(op: PlanOp) -> bool {
    match op {
        PlanOp::Scan(_) => true,
        PlanOp::Filter(pred, _) => fully_folded(pred),
        PlanOp::Project(exprs, _, _) => forall|i: int|
            0 <= i < exprs@.len() ==> fully_folded(#[trigger] exprs@[i]),
        PlanOp::Aggregate(g, a, _, _) => (forall|i: int|
            0 <= i < g@.len() ==> fully_folded(#[trigger] g@[i])) && (forall|i: int|
            0 <= i < a@.len() ==> fully_folded(#[trigger] a@[i])),
        PlanOp::Join(_, cond, _, _) => fully_folded(cond),
        PlanOp::Sort(keys, _) => forall|i: int|
            0 <= i < keys@.len() ==> fully_folded((#[trigger] keys@[i]).expr),
        PlanOp::Limit(_, _) => true,
        PlanOp::Union(_, _) => true,
        PlanOp::Window(wexprs, _, _) => forall|i: int|
            0 <= i < wexprs@.len() ==> fully_folded(#[trigger] wexprs@[i]),
    }
}

/// The predicate-pushdown opportunity at one node: a filter directly above
/// an inner join with a side-local conjunct.
pub open spec fn push_opp(op: PlanOp) -> bool {
    match op {
        PlanOp::Filter(pred, input) => match input.op {
            PlanOp::Join(k, _, l, r) => k == JoinKind::Inner && exists|i: int|
                0 <= i < spec_conjuncts(pred).len() && side_local(
                    #[trigger] spec_conjuncts(pred)[i],
                    l.schema@.len() as int,
                    r.schema@.len() as int,
                ),
            _ => false,
        },
        _ => false,
    }
}

/// The redundant-sort opportunity at one node: a sort whose input is a
/// sort at least as fine.
pub open spec fn sort_opp(op: PlanOp) -> bool {
    match op {
        PlanOp::Sort(k1, input) => match input.op {
            PlanOp::Sort(k2, _) => key_prefix(k1@, k2@),
            _ => false,
        },
        _ => false,
    }
}

/// The projection-pruning opportunity at one node: an aggregate above a
/// projection whose last column no aggregate or group expression
/// references.
pub open spec fn prune_opp(op: PlanOp) -> bool {
    match op {
        PlanOp::Aggregate(g, a, _, input) => match input.op {
            PlanOp::Project(pexprs, _, _) => pexprs@.len() > 0 && groups_aggs_within(
                g@,
                a@,
                pexprs@.len() - 1,
            ),
            _ => false,
        },
        _ => false,
    }
}

/// The join-reordering opportunity at one node: an inner join whose inputs
/// both carry statistics, with the right input estimated smaller. Without
/// statistics on both inputs there is never an opportunity: the original
/// order is preserved, never guessed at.
pub open spec fn reorder_opp(op: PlanOp) -> bool {
    match op {
        PlanOp::Join(k, cond, l, r) => k == JoinKind::Inner && match (spec_est(*l), spec_est(*r)) {
            (Some(el), Some(er)) => er < el,
            _ => false,
        },
        _ => false,
    }
}

/// Whether any rewrite rule has an opportunity anywhere in the plan. The
/// optimizer's fixed point is the absence of every opportunity.
pub open spec fn opportunity(p: PlanNode) -> bool
    decreases p,
{
    ||| !node_exprs_folded(p.op)
    ||| push_opp(p.op)
    ||| sort_opp(p.op)
    ||| prune_opp(p.op)
    ||| reorder_opp(p.op)
    ||| match p.op {
        PlanOp::Scan(_) => false,
        PlanOp::Filter(_, input) => opportunity(*input),
        PlanOp::Project(_, _, input) => opportunity(*input),
        PlanOp::Aggregate(_, _, _, input) => opportunity(*input),
        PlanOp::Join(_, _, l, r) => opportunity(*l) || opportunity(*r),
        PlanOp::Sort(_, input) => opportunity(*input),
        PlanOp::Limit(_, input) => opportunity(*input),
        PlanOp::Union(l, r) => opportunity(*l) || opportunity(*r),
        PlanOp::Window(_, _, input) => opportunity(*input),
    }
}

/// Whether any rewrite rule has an opportunity anywhere in the plan.
#[verifier::loop_isolation(false)]
pub fn has_opportunity(p: &PlanNode) -> (r: bool)
    requires
        plan_wf(*p),
    ensures
        r == opportunity(*p),
    decreases *p,
{
    match &p.op {
        PlanOp::Scan(_) => false,
        PlanOp::Filter(pred, input) => {
            if !is_folded(pred) {
                return true;
            }
            let local = match &input.op {
                PlanOp::Join(k, _, l, r) => {
                    if matches!(k, JoinKind::Inner) {
                        let llen = l.schema.len();
                        let rlen = r.schema.len();
                        let tot: usize = input.schema.len();
                        proof {
                            assert(plan_wf(**input));
                            assert(!crate::plan::left_only(JoinKind::Inner));
                            assert(input.schema@ == l.schema@ + r.schema@);
                            assert(tot == llen + rlen);
                        }
                        any_side_local(pred, llen, rlen)
                    } else {
                        false
                    }
                },
                _ => false,
            };
            local || has_opportunity(input)
        },
        PlanOp::Project(exprs, _, input) => {
            let mut i: usize = 0;
            while i < exprs.len()
                invariant
                    i <= exprs@.len(),
                    forall|j: int| 0 <= j < i ==> fully_folded(#[trigger] exprs@[j]),
                decreases exprs@.len() - i,
            {
                if !is_folded(&exprs[i]) {
                    return true;
                }
                i = i + 1;
            }
            has_opportunity(input)
        },
        PlanOp::Aggregate(g, a, _, input) => {
            let mut i: usize = 0;
            while i < g.len()
                invariant
                    i <= g@.len(),
                    forall|j: int| 0 <= j < i ==> fully_folded(#[trigger] g@[j]),
                decreases g@.len() - i,
            {
                if !is_folded(&g[i]) {
                    return true;
                }
                i = i + 1;
            }
            let mut k: usize = 0;
            while k < a.len()
                invariant
                    k <= a@.len(),
                    forall|j: int| 0 <= j < k ==> fully_folded(#[trigger] a@[j]),
                decreases a@.len() - k,
            {
                if !is_folded(&a[k]) {
                    return true;
                }
                k = k + 1;
            }
            let local = match &input.op {
                PlanOp::Project(pexprs, _, _) => {
                    let plen = pexprs.len();
                    plen > 0 && check_within(g, a, plen - 1)
                },
                _ => false,
            };
            local || has_opportunity(input)
        },
        PlanOp::Join(k, cond, l, r) => {
            if !is_folded(cond) {
                return true;
            }
            let local = if matches!(k, JoinKind::Inner) {
                match (est(l), est(r)) {
                    (Some(el), Some(er)) => er < el,
                    _ => false,
                }
            } else {
                false
            };
            local || has_opportunity(l) || has_opportunity(r)
        },
        PlanOp::Sort(k1, input) => {
            let mut i: usize = 0;
            while i < k1.len()
                invariant
                    i <= k1@.len(),
                    forall|j: int| 0 <= j < i ==> fully_folded((#[trigger] k1@[j]).expr),
                decreases k1@.len() - i,
            {
                if !is_folded(&k1[i].expr) {
                    return true;
                }
                i = i + 1;
            }
            let local = match &input.op {
                PlanOp::Sort(k2, _) => keys_prefix(k1, k2),
                _ => false,
            };
            local || has_opportunity(input)
        },
        PlanOp::Limit(_, input) => has_opportunity(input),
        PlanOp::Union(l, r) => has_opportunity(l) || has_opportunity(r),
        PlanOp::Window(wexprs, _, input) => {
            let mut i: usize = 0;
            while i < wexprs.len()
                invariant
                    i <= wexprs@.len(),
                    forall|j: int| 0 <= j < i ==> fully_folded(#[trigger] wexprs@[j]),
                decreases wexprs@.len() - i,
            {
                if !is_folded(&wexprs[i]) {
                    return true;
                }
                i = i + 1;
            }
            has_opportunity(input)
        },
    }
}

/// Predicate pushdown at one node: a filter above an inner join has its
/// side-local conjuncts moved below the join, onto the side whose columns
/// they reference; mixed conjuncts stay above. The rewritten plan's output
/// schema is identical to the original's (this is what makes the rule
/// semantics-preserving at the schema boundary); a node of any other shape
/// is returned unchanged.
#[verifier::loop_isolation(false)]
pub fn local_push(p: PlanNode) -> (res: PlanNode)
    requires
        plan_wf(p),
    ensures
        plan_wf(res),
        res.schema@ == p.schema@,
        !push_opp(p.op) ==> res == p,
        push_opp(p.op) ==> !push_opp(res.op),
{
    let PlanNode { op, schema } = p;
    match op {
        PlanOp::Filter(pred, input) => {
            let inner_join = matches!(input.op, PlanOp::Join(JoinKind::Inner, _, _, _));
            if !inner_join {
                return PlanNode { op: PlanOp::Filter(pred, input), schema };
            }
            let ghost gpred = pred;
            let ghost ginput = *input;
            let PlanNode { op: iop, schema: ischema } = *input;
            match iop {
                PlanOp::Join(kind, cond, l, r) => {
                    let llen = l.schema.len();
                    let rlen = r.schema.len();
                    let tot: usize = ischema.len();
                    proof {
                        assert(plan_wf(ginput));
                        assert(ginput.op == PlanOp::Join(kind, cond, l, r));
                        assert(kind == JoinKind::Inner);
                        assert(!crate::plan::left_only(kind));
                        assert(ischema@ == l.schema@ + r.schema@);
                        assert(tot == llen + rlen);
                        lemma_conjuncts_wf(gpred, ischema@);
                    }
                    if !any_side_local(&pred, llen, rlen) {
                        let inode = PlanNode { op: PlanOp::Join(kind, cond, l, r), schema: ischema };
                        proof {
                            assert(inode == ginput);
                        }
                        return PlanNode { op: PlanOp::Filter(pred, Box::new(inode)), schema };
                    }
                    let mut cs: Vec<Expr> = Vec::new();
                    collect_conjuncts(pred, &mut cs);
                    let ghost ocs = cs@;
                    proof {
                        assert(ocs == spec_conjuncts(gpred));
                        lemma_conjuncts_not_and(gpred);
                    }
                    let mut lefts: Vec<Expr> = Vec::new();
                    let mut rights: Vec<Expr> = Vec::new();
                    let mut stays: Vec<Expr> = Vec::new();
                    let mut rest = cs;
                    let rl: usize = rest.len();
                    proof {
                        assert(ocs.len() == rl);
                    }
                    let mut i: usize = 0;
                    while rest.len() > 0
                        invariant
                            i + rest@.len() == ocs.len(),
                            rest@ == ocs.skip(i as int),
                            forall|j: int|
                                0 <= j < lefts@.len() ==> expr_wf(#[trigger] lefts@[j], l.schema@)
                                    && lefts@[j].spec_ty().kind == crate::types::TyKind::Boolean,
                            forall|j: int|
                                0 <= j < rights@.len() ==> expr_wf(#[trigger] rights@[j], r.schema@)
                                    && rights@[j].spec_ty().kind == crate::types::TyKind::Boolean,
                            forall|j: int|
                                0 <= j < stays@.len() ==> expr_wf(#[trigger] stays@[j], ischema@)
                                    && stays@[j].spec_ty().kind == crate::types::TyKind::Boolean,
                            forall|j: int|
                                0 <= j < lefts@.len() ==> !((#[trigger] lefts@[j]) matches Expr::Binary(
                                    BinOp::And,
                                    _,
                                    _,
                                    _,
                                )),
                            forall|j: int|
                                0 <= j < rights@.len() ==> !((#[trigger] rights@[j]) matches Expr::Binary(
                                    BinOp::And,
                                    _,
                                    _,
                                    _,
                                )),
                            forall|j: int|
                                0 <= j < stays@.len() ==> !((#[trigger] stays@[j]) matches Expr::Binary(
                                    BinOp::And,
                                    _,
                                    _,
                                    _,
                                )),
                            forall|j: int|
                                0 <= j < stays@.len() ==> !side_local(
                                    #[trigger] stays@[j],
                                    llen as int,
                                    rlen as int,
                                ),
                            lefts@.len() + rights@.len() + stays@.len() == i,
                        decreases rest@.len(),
                    {
                        proof {
                            assert(rest@[0] == ocs[i as int]);
                            assert(expr_wf(ocs[i as int], ischema@));
                        }
                        let c = rest.remove(0);
                        if check_refs_in(&c, 0, llen) {
                            proof {
                                lemma_expr_wf_prefix(c, ischema@, llen as int);
                                assert(ischema@.take(llen as int) =~= l.schema@);
                            }
                            lefts.push(c);
                        } else if check_refs_in(&c, llen, tot) {
                            proof {
                                lemma_refs_in_widen(
                                    c,
                                    llen as int,
                                    tot as int,
                                    llen as int,
                                    usize::MAX as int + 1,
                                );
                            }
                            let c2 = shift_down(c, llen);
                            proof {
                                assert(expr_wf(c, l.schema@ + r.schema@));
                                assert(expr_wf(c2, r.schema@));
                            }
                            rights.push(c2);
                        } else {
                            stays.push(c);
                        }
                        i = i + 1;
                    }
                    let left2 = if lefts.len() > 0 {
                        let s = l.schema.dup();
                        let f = and_all(lefts);
                        PlanNode { op: PlanOp::Filter(f, l), schema: s }
                    } else {
                        *l
                    };
                    let right2 = if rights.len() > 0 {
                        let s = r.schema.dup();
                        let f = and_all(rights);
                        PlanNode { op: PlanOp::Filter(f, r), schema: s }
                    } else {
                        *r
                    };
                    proof {
                        assert(plan_wf(left2));
                        assert(plan_wf(right2));
                    }
                    let join2 = PlanNode {
                        op: PlanOp::Join(kind, cond, Box::new(left2), Box::new(right2)),
                        schema: ischema,
                    };
                    proof {
                        assert(plan_wf(join2));
                    }
                    proof {
                        assert(left2.schema@.len() == llen);
                        assert(right2.schema@.len() == rlen);
                    }
                    if stays.len() > 0 {
                        let s2 = join2.schema.dup();
                        let ghost gstays = stays@;
                        let ghost gjoin2 = join2;
                        let f = and_all(stays);
                        let res = PlanNode { op: PlanOp::Filter(f, Box::new(join2)), schema: s2 };
                        proof {
                            assert(plan_wf(res));
                            assert(spec_conjuncts(f) == gstays);
                            assert(!push_opp(res.op)) by {
                                assert forall|j: int|
                                    0 <= j < spec_conjuncts(f).len() implies !side_local(
                                    #[trigger] spec_conjuncts(f)[j],
                                    gjoin2.op->Join_2.schema@.len() as int,
                                    gjoin2.op->Join_3.schema@.len() as int,
                                ) by {
                                    assert(spec_conjuncts(f)[j] == gstays[j]);
                                }
                            }
                        }
                        res
                    } else {
                        proof {
                            assert(!push_opp(join2.op));
                        }
                        join2
                    }
                },
                other => {
                    proof {
                        assert(false);
                    }
                    PlanNode { op: other, schema }
                },
            }
        },
        other => PlanNode { op: other, schema },
    }
}

/// Redundant-sort elimination at one node: a sort whose input is already
/// sorted by an equivalent or finer key list is dropped — the result is
/// exactly the inner sort node; anything else is returned unchanged.
pub fn local_sort(p: PlanNode) -> (res: PlanNode)
    requires
        plan_wf(p),
    ensures
        plan_wf(res),
        res.schema@ == p.schema@,
        match p.op {
            PlanOp::Sort(_, input) => if sort_opp(p.op) {
                res == *input
            } else {
                res == p
            },
            _ => res == p,
        },
{
    let PlanNode { op, schema } = p;
    match op {
        PlanOp::Sort(k1, input) => {
            let redundant = match &input.op {
                PlanOp::Sort(k2, _) => keys_prefix(&k1, k2),
                _ => false,
            };
            if redundant {
                *input
            } else {
                PlanNode { op: PlanOp::Sort(k1, input), schema }
            }
        },
        other => PlanNode { op: other, schema },
    }
}

/// Projection pruning at one node: an aggregate above a projection has the
/// projection narrowed to the column prefix its group and aggregate
/// expressions actually reference. The group and aggregate expressions
/// themselves are never altered, so no referenced column is ever removed,
/// even transitively (well-formedness of the result re-checks every
/// reference against the narrowed projection). Anything else is returned
/// unchanged.
#[verifier::loop_isolation(false)]
pub fn local_prune(p: PlanNode) -> (res: PlanNode)
    requires
        plan_wf(p),
    ensures
        plan_wf(res),
        res.schema@ == p.schema@,
        if !prune_opp(p.op) {
            res == p
        } else {
            // the rule fired: the group/aggregate/name lists and the
            // projection's own input are untouched, and the projection is
            // narrowed to the least column prefix those expressions
            // reference
            match p.op {
                PlanOp::Aggregate(g, a, names, input) => match input.op {
                    PlanOp::Project(pe, pn, inner) => match res.op {
                        PlanOp::Aggregate(g2, a2, names2, input2) => g2 == g && a2 == a && names2
                            == names && match input2.op {
                            PlanOp::Project(pe2, pn2, inner2) => inner2 == inner && exists|n: int|
                                #![auto]
                                {
                                    &&& 0 <= n < pe@.len()
                                    &&& pe2@ == pe@.take(n)
                                    &&& pn2@ == pn@.take(n)
                                    &&& groups_aggs_within(g@, a@, n)
                                    &&& (n > 0 ==> !groups_aggs_within(g@, a@, n - 1))
                                },
                            _ => false,
                        },
                        _ => false,
                    },
                    _ => false,
                },
                _ => false,
            }
        },
{
    let PlanNode { op, schema } = p;
    match op {
        PlanOp::Aggregate(g, a, names, input) => {
            let is_proj = matches!(input.op, PlanOp::Project(_, _, _));
            if !is_proj {
                return PlanNode { op: PlanOp::Aggregate(g, a, names, input), schema };
            }
            let ghost ginput = *input;
            let PlanNode { op: iop, schema: ischema } = *input;
            match iop {
                PlanOp::Project(mut pexprs, mut pnames, in2) => {
                    let plen = pexprs.len();
                    proof {
                        assert(plan_wf(ginput));
                        assert(ginput.op == PlanOp::Project(pexprs, pnames, in2));
                        assert(ischema@.len() == plen);
                        assert forall|j: int| 0 <= j < g@.len() implies refs_in(
                            #[trigger] g@[j],
                            0,
                            plen as int,
                        ) by {
                            lemma_wf_refs(g@[j], ischema@);
                        }
                        assert forall|j: int| 0 <= j < a@.len() implies refs_in(
                            #[trigger] a@[j],
                            0,
                            plen as int,
                        ) by {
                            lemma_wf_refs(a@[j], ischema@);
                        }
                    }
                    let mut needed: usize = plen;
                    while needed > 0 && check_within(&g, &a, needed - 1)
                        invariant
                            needed <= plen,
                            groups_aggs_within(g@, a@, needed as int),
                        decreases needed,
                    {
                        needed = needed - 1;
                    }
                    if needed == plen {
                        let inode = PlanNode {
                            op: PlanOp::Project(pexprs, pnames, in2),
                            schema: ischema,
                        };
                        proof {
                            assert(inode == ginput);
                            assert(!prune_opp(p.op));
                        }
                        return PlanNode {
                            op: PlanOp::Aggregate(g, a, names, Box::new(inode)),
                            schema,
                        };
                    }
                    let ghost opexprs = pexprs@;
                    let ghost opnames = pnames@;
                    let ghost oischema = ischema@;
                    pexprs.truncate(needed);
                    pnames.truncate(needed);
                    let mut ischema2 = ischema;
                    ischema2.cols.truncate(needed);
                    let inode = PlanNode {
                        op: PlanOp::Project(pexprs, pnames, in2),
                        schema: ischema2,
                    };
                    proof {
                        assert(plan_wf(inode));
                        assert(inode.schema@ =~= oischema.take(needed as int));
                    }
                    let ghost ginode = inode;
                    let res = PlanNode { op: PlanOp::Aggregate(g, a, names, Box::new(inode)), schema };
                    proof {
                        assert forall|j: int| 0 <= j < g@.len() implies expr_wf(
                            #[trigger] g@[j],
                            inode.schema@,
                        ) by {
                            lemma_expr_wf_prefix(g@[j], oischema, needed as int);
                        }
                        assert forall|j: int| 0 <= j < a@.len() implies expr_wf(
                            #[trigger] a@[j],
                            inode.schema@,
                        ) by {
                            lemma_expr_wf_prefix(a@[j], oischema, needed as int);
                        }
                        assert(plan_wf(res));
                        assert(inode.op matches PlanOp::Project(pe2, pn2, _) && pe2@ =~= opexprs.take(
                            needed as int,
                        ) && pn2@ =~= opnames.take(needed as int));
                        let n = needed as int;
                        assert(0 <= n < opexprs.len());
                        assert(groups_aggs_within(g@, a@, n));
                        assert(n > 0 ==> !groups_aggs_within(g@, a@, n - 1));
                        assert(groups_aggs_within(g@, a@, plen - 1)) by {
                            assert forall|j: int| 0 <= j < g@.len() implies refs_in(
                                #[trigger] g@[j],
                                0,
                                plen - 1,
                            ) by {
                                lemma_refs_in_widen(g@[j], 0, needed as int, 0, plen - 1);
                            }
                            assert forall|j: int| 0 <= j < a@.len() implies refs_in(
                                #[trigger] a@[j],
                                0,
                                plen - 1,
                            ) by {
                                lemma_refs_in_widen(a@[j], 0, needed as int, 0, plen - 1);
                            }
                        }
                        assert(prune_opp(p.op));
                        match ginode.op {
                            PlanOp::Project(pe2, pn2, _) => {
                                assert(exists|m: int|
                                    #![auto]
                                    {
                                        &&& 0 <= m < opexprs.len()
                                        &&& pe2@ == opexprs.take(m)
                                        &&& pn2@ == opnames.take(m)
                                        &&& groups_aggs_within(g@, a@, m)
                                        &&& (m > 0 ==> !groups_aggs_within(g@, a@, m - 1))
                                    }) by {
                                    assert(pe2@ == opexprs.take(n) && pn2@ == opnames.take(n));
                                }
                            },
                            _ => {},
                        }
                    }
                    res
                },
                other => {
                    proof {
                        assert(false);
                    }
                    PlanNode { op: other, schema }
                },
            }
        },
        other => PlanNode { op: other, schema },
    }
}

/// Statistics-driven join reordering at one node: an inner join whose
/// inputs both carry cardinality estimates is reordered so the smaller
/// estimated input comes first, under a projection that restores the
/// original column order, so the output schema is unchanged. When
/// statistics are absent on either input the original join order is
/// preserved exactly — the rule never guesses.
#[verifier::loop_isolation(false)]
pub fn local_reorder(p: PlanNode) -> (res: PlanNode)
    requires
        plan_wf(p),
    ensures
        plan_wf(res),
        res.schema@ == p.schema@,
        match p.op {
            PlanOp::Join(k, _, l, r) => if !reorder_opp(p.op) {
                res == p
            } else {
                // the rule fired: the smaller estimated input now comes
                // first, under a projection restoring the column order
                match res.op {
                    PlanOp::Project(_, _, j2) => match j2.op {
                        PlanOp::Join(k2, _, l2, r2) => k2 == k && *l2 == *r && *r2 == *l,
                        _ => false,
                    },
                    _ => false,
                }
            },
            _ => res == p,
        },
{
    let PlanNode { op, schema } = p;
    match op {
        PlanOp::Join(kind, cond, l, r) => {
            if !matches!(kind, JoinKind::Inner) {
                return PlanNode { op: PlanOp::Join(kind, cond, l, r), schema };
            }
            let swap = match (est(&l), est(&r)) {
                (Some(el), Some(er)) => er < el,
                _ => false,
            };
            if !swap {
                return PlanNode { op: PlanOp::Join(kind, cond, l, r), schema };
            }
            let llen = l.schema.len();
            let rlen = r.schema.len();
            let tot: usize = schema.len();
            proof {
                assert(schema@ == l.schema@ + r.schema@);
                assert(tot == llen + rlen);
                lemma_wf_refs(cond, l.schema@ + r.schema@);
            }
            let cond2 = remap_swap(cond, llen, rlen);
            let swapped = r.schema.concat(&l.schema);
            let ghost gl = *l;
            let ghost gr = *r;
            let join2 = PlanNode {
                op: PlanOp::Join(kind, cond2, r, l),
                schema: swapped,
            };
            proof {
                assert(expr_wf(cond2, gr.schema@ + gl.schema@));
                assert(plan_wf(join2));
            }
            let mut wexprs: Vec<Expr> = Vec::new();
            let mut wnames: Vec<String> = Vec::new();
            let mut k: usize = 0;
            while k < tot
                invariant
                    k <= tot,
                    wexprs@.len() == k,
                    wnames@.len() == k,
                    forall|j: int| 0 <= j < k ==> expr_wf(#[trigger] wexprs@[j], join2.schema@),
                    forall|j: int| 0 <= j < k ==> !spec_contains_agg(#[trigger] wexprs@[j]),
                    forall|j: int|
                        0 <= j < k ==> (#[trigger] wexprs@[j]).spec_ty() == schema@[j].ty,
                    forall|j: int| 0 <= j < k ==> (#[trigger] wnames@[j])@ == schema@[j].name@,
                decreases tot - k,
            {
                let src: usize = if k < llen {
                    rlen + k
                } else {
                    k - llen
                };
                proof {
                    if k < llen {
                        assert(join2.schema@[src as int] == gl.schema@[k as int]);
                        assert(schema@[k as int] == gl.schema@[k as int]);
                    } else {
                        assert(join2.schema@[src as int] == gr.schema@[k - llen]);
                        assert(schema@[k as int] == gr.schema@[k - llen]);
                    }
                }
                let ty = crate::types::dup_ty(&join2.schema.col(src).ty);
                wexprs.push(Expr::ColumnRef(src, ty));
                wnames.push(schema.col(k).name.clone());
                k = k + 1;
            }
            let res = PlanNode {
                op: PlanOp::Project(wexprs, wnames, Box::new(join2)),
                schema,
            };
            proof {
                assert(plan_wf(res));
            }
            res
        },
        other => PlanNode { op: other, schema },
    }
}

/// One bottom-up rewrite pass: every expression is constant-folded, and at
/// each node, in priority order, predicate pushdown, projection pruning,
/// redundant-sort elimination and join reordering are applied where their
/// patterns match. The pass preserves well-formedness and the output
/// schema of every node.
#[verifier::loop_isolation(false)]
pub fn rewrite(p: PlanNode) -> (res: PlanNode)
    requires
        plan_wf(p),
    ensures
        plan_wf(res),
        res.schema@ == p.schema@,
    decreases p,
{
    let PlanNode { op, schema } = p;
    match op {
        PlanOp::Scan(t) => PlanNode { op: PlanOp::Scan(t), schema },
        PlanOp::Filter(pred, input) => {
            let input2 = rewrite(*input);
            let (pred2, _) = fold_expr(pred);
            let node = PlanNode { op: PlanOp::Filter(pred2, Box::new(input2)), schema };
            proof {
                assert(plan_wf(node));
            }
            local_push(node)
        },
        PlanOp::Project(exprs, names, input) => {
            let ghost oexprs = exprs@;
            let input2 = rewrite(*input);
            let exprs2 = fold_expr_list(exprs);
            let node = PlanNode { op: PlanOp::Project(exprs2, names, Box::new(input2)), schema };
            proof {
                assert(plan_wf(node));
            }
            node
        },
        PlanOp::Aggregate(g, a, names, input) => {
            let input2 = rewrite(*input);
            let g2 = fold_expr_list(g);
            let a2 = fold_expr_list(a);
            let node = PlanNode {
                op: PlanOp::Aggregate(g2, a2, names, Box::new(input2)),
                schema,
            };
            proof {
                assert(plan_wf(node));
            }
            local_prune(node)
        },
        PlanOp::Join(kind, cond, l, r) => {
            let l2 = rewrite(*l);
            let r2 = rewrite(*r);
            let (cond2, _) = fold_expr(cond);
            let node = PlanNode {
                op: PlanOp::Join(kind, cond2, Box::new(l2), Box::new(r2)),
                schema,
            };
            proof {
                assert(plan_wf(node));
            }
            local_reorder(node)
        },
        PlanOp::Sort(keys, input) => {
            let input2 = rewrite(*input);
            let ghost okeys = keys@;
            let mut keys2: Vec<crate::plan::SortKey> = Vec::new();
            let mut rest = keys;
            let rl: usize = rest.len();
            proof {
                assert(okeys.len() == rl);
            }
            let mut i: usize = 0;
            while rest.len() > 0
                invariant
                    i + rest@.len() == okeys.len(),
                    rest@ == okeys.skip(i as int),
                    keys2@.len() == i,
                    forall|j: int|
                        0 <= j < i ==> (#[trigger] keys2@[j]).expr.spec_ty()
                            == okeys[j].expr.spec_ty(),
                    forall|j: int, input_s: Seq<Column>|
                        0 <= j < i && expr_wf(okeys[j].expr, input_s) ==> #[trigger] expr_wf(
                            keys2@[j].expr,
                            input_s,
                        ),
                    forall|j: int| 0 <= j < i ==> (#[trigger] keys2@[j]).asc == okeys[j].asc,
                decreases rest@.len(),
            {
                proof {
                    assert(rest@[0] == okeys[i as int]);
                }
                let crate::plan::SortKey { expr, asc } = rest.remove(0);
                let (e2, _) = fold_expr(expr);
                keys2.push(crate::plan::SortKey { expr: e2, asc });
                i = i + 1;
            }
            let node = PlanNode { op: PlanOp::Sort(keys2, Box::new(input2)), schema };
            proof {
                assert(plan_wf(node));
            }
            local_sort(node)
        },
        PlanOp::Limit(n, input) => {
            let input2 = rewrite(*input);
            PlanNode { op: PlanOp::Limit(n, Box::new(input2)), schema }
        },
        PlanOp::Union(l, r) => {
            let l2 = rewrite(*l);
            let r2 = rewrite(*r);
            let node = PlanNode { op: PlanOp::Union(Box::new(l2), Box::new(r2)), schema };
            proof {
                assert(plan_wf(node));
            }
            node
        },
        PlanOp::Window(wexprs, names, input) => {
            let input2 = rewrite(*input);
            let wexprs2 = fold_expr_list(wexprs);
            let node = PlanNode {
                op: PlanOp::Window(wexprs2, names, Box::new(input2)),
                schema,
            };
            proof {
                assert(plan_wf(node));
            }
            node
        },
    }
}

/// In any well-formed plan, an aggregate's group and aggregate expressions
/// reference only columns its input still provides. Together with
/// [`local_prune`]'s contract — the result is well-formed and the group
/// and aggregate expression lists are never altered — this says projection
/// pruning never removes a column referenced by an aggregate's group-by or
/// aggregate-expression list, even transitively.
pub proof fn lemma_aggregate_refs_covered(p: PlanNode)
    requires
        plan_wf(p),
        p.op matches PlanOp::Aggregate(_, _, _, _),
    ensures
        match p.op {
            PlanOp::Aggregate(g, a, _, input) => groups_aggs_within(
                g@,
                a@,
                input.schema@.len() as int,
            ),
            _ => false,
        },
{
    match p.op {
        PlanOp::Aggregate(g, a, _, input) => {
            assert forall|j: int| 0 <= j < g@.len() implies refs_in(
                #[trigger] g@[j],
                0,
                input.schema@.len() as int,
            ) by {
                lemma_wf_refs(g@[j], input.schema@);
            }
            assert forall|j: int| 0 <= j < a@.len() implies refs_in(
                #[trigger] a@[j],
                0,
                input.schema@.len() as int,
            ) by {
                lemma_wf_refs(a@[j], input.schema@);
            }
        },
        _ => {},
    }
}

/// The optimizer's fixed point: no rewrite rule has an opportunity
/// anywhere in the plan.
pub open spec fn opt_fixed(p: PlanNode) -> bool {
    !opportunity(p)
}

/// Optimize a plan: apply rewrite passes until no rule has an opportunity
/// (the fixed point, reported `true`) or the pass cap is reached (reported
/// `false`; not an error — the best plan found so far is returned). The
/// output schema is always identical to the input's. An already-optimized
/// plan is returned unchanged at once, so optimizing a second time yields
/// a structurally identical plan.
#[verifier::loop_isolation(false)]
pub fn optimize(p: PlanNode) -> (r: (PlanNode, bool))
    requires
        plan_wf(p),
    ensures
        plan_wf(r.0),
        r.0.schema@ == p.schema@,
        r.1 ==> opt_fixed(r.0),
        opt_fixed(p) ==> r.1 && r.0 == p,
{
    if !has_opportunity(&p) {
        return (p, true);
    }
    let mut q = p;
    let mut pass: u64 = 0;
    while pass < MAX_OPT_PASSES
        invariant
            plan_wf(q),
            q.schema@ == p.schema@,
        decreases MAX_OPT_PASSES - pass,
    {
        q = rewrite(q);
        if !has_opportunity(&q) {
            return (q, true);
        }
        pass = pass + 1;
    }
    (q, false)
}

} // verus!
