//! Logical plan operators and the plan builder.
//!
//! A [`PlanNode`] is a tree of relational operators; every node exclusively
//! owns its input subtrees and a derived output [`Schema`]. [`plan_wf`]
//! states the structural invariant: a node's output schema is fully
//! determined by its variant and its inputs' schemas, and every expression
//! the node carries is well-formed against its input's schema.
//!
//! [`build_plan`] translates an externally parsed SELECT statement into a
//! plan, threading the output schema forward clause by clause; every error
//! is reported here, never deferred to the optimizer.

use vstd::prelude::*;

use crate::catalog::Catalog;
use crate::catalog::ColumnStat;
use crate::catalog::Statistics;
use crate::catalog::Table;
use crate::catalog::table_wf;
use crate::error::PlanError;
use crate::expr::AstExpr;
use crate::expr::Expr;
use crate::expr::build_expr;
use crate::expr::expr_wf;
use crate::expr::exprs_wf;
use crate::expr::mirrors;
use crate::expr::spec_contains_agg;
use crate::schema::Column;
use crate::schema::Schema;
use crate::schema::schema_types_wf;
use crate::types::Ty;
use crate::types::TyKind;
use crate::types::dup_ty;
use crate::types::spec_common_ty;
use crate::types::common_ty;
use crate::types::spec_is_orderable;
use crate::types::is_orderable;
use crate::types::ty_wf;

verus! {

/// The kind of a join.
#[derive(Debug, Clone, Copy, PartialEq, Eq, Structural)]
pub enum JoinKind {
    Inner,
    Left,
    Right,
    Full,
    Semi,
    Anti,
}

/// Whether the join's output carries only the left input's columns.
pub open spec fn left_only(k: JoinKind) -> bool {
    k == JoinKind::Semi || k == JoinKind::Anti
}

/// A sort key: expression plus direction.
#[derive(Debug, PartialEq, Eq)]
pub struct SortKey {
    pub expr: Expr,
    pub asc: bool,
}

/// A logical plan operator.
#[derive(Debug, PartialEq, Eq)]
pub enum PlanOp {
    /// Leaf: scan a registered table.
    Scan(Table),
    /// Keep the input rows satisfying a boolean predicate.
    Filter(Expr, Box<PlanNode>),
    /// Compute named output columns from the input.
    Project(Vec<Expr>, Vec<String>, Box<PlanNode>),
    /// Group by the first expression list, compute the aggregate
    /// expressions of the second; output columns are the group keys then
    /// the aggregates, under the given names.
    Aggregate(Vec<Expr>, Vec<Expr>, Vec<String>, Box<PlanNode>),
    /// Join two inputs under a boolean condition over the concatenated
    /// schemas.
    Join(JoinKind, Expr, Box<PlanNode>, Box<PlanNode>),
    /// Order the input.
    Sort(Vec<SortKey>, Box<PlanNode>),
    /// Keep the first `n` rows.
    Limit(u64, Box<PlanNode>),
    /// Concatenate two inputs with column-wise compatible schemas.
    Union(Box<PlanNode>, Box<PlanNode>),
    /// Append window-call columns to the input.
    Window(Vec<Expr>, Vec<String>, Box<PlanNode>),
}

/// A plan node: an operator plus its derived output schema.
#[derive(Debug, PartialEq, Eq)]
pub struct PlanNode {
    pub op: PlanOp,
    pub schema: Schema,
}

/// Well-formedness of a plan: every node's expressions are well-formed
/// against its input's schema, predicates and join conditions are boolean,
/// and every node's output schema is exactly the schema its variant and its
/// inputs determine.
pub open spec fn plan_wf(p: PlanNode) -> bool
    decreases p,
{
    match p.op {
        PlanOp::Scan(t) => table_wf(t) && p.schema@ == t.schema@,
        PlanOp::Filter(pred, input) => {
            &&& plan_wf(*input)
            &&& expr_wf(pred, input.schema@)
            &&& pred.spec_ty().kind == TyKind::Boolean
            &&& p.schema@ == input.schema@
        },
        PlanOp::Project(exprs, names, input) => {
            &&& plan_wf(*input)
            &&& exprs_wf(exprs@, input.schema@)
            &&& forall|i: int| 0 <= i < exprs@.len() ==> !spec_contains_agg(#[trigger] exprs@[i])
            &&& names@.len() == exprs@.len()
            &&& p.schema@.len() == exprs@.len()
            &&& forall|i: int|
                0 <= i < exprs@.len() ==> (#[trigger] p.schema@[i]).name@ == names@[i]@
                    && p.schema@[i].ty == exprs@[i].spec_ty()
        },
        PlanOp::Aggregate(group, aggs, names, input) => {
            &&& plan_wf(*input)
            &&& exprs_wf(group@, input.schema@)
            &&& exprs_wf(aggs@, input.schema@)
            &&& forall|i: int| 0 <= i < group@.len() ==> !spec_contains_agg(#[trigger] group@[i])
            &&& forall|i: int| 0 <= i < aggs@.len() ==> spec_contains_agg(#[trigger] aggs@[i])
            &&& names@.len() == group@.len() + aggs@.len()
            &&& p.schema@.len() == group@.len() + aggs@.len()
            &&& forall|i: int|
                0 <= i < group@.len() ==> (#[trigger] p.schema@[i]).ty == group@[i].spec_ty()
            &&& forall|i: int|
                0 <= i < aggs@.len() ==> (#[trigger] p.schema@[group@.len() + i]).ty
                    == aggs@[i].spec_ty()
            &&& forall|i: int|
                0 <= i < names@.len() ==> (#[trigger] p.schema@[i]).name@ == names@[i]@
        },
        PlanOp::Join(kind, cond, left, right) => {
            &&& plan_wf(*left)
            &&& plan_wf(*right)
            &&& expr_wf(cond, left.schema@ + right.schema@)
            &&& cond.spec_ty().kind == TyKind::Boolean
            &&& if left_only(kind) {
                p.schema@ == left.schema@
            } else {
                p.schema@ == left.schema@ + right.schema@
            }
        },
        PlanOp::Sort(keys, input) => {
            &&& plan_wf(*input)
            &&& forall|i: int| 0 <= i < keys@.len() ==> expr_wf((#[trigger] keys@[i]).expr, input.schema@)
            &&& forall|i: int|
                0 <= i < keys@.len() ==> spec_is_orderable((#[trigger] keys@[i]).expr.spec_ty().kind)
            &&& p.schema@ == input.schema@
        },
        PlanOp::Limit(_, input) => plan_wf(*input) && p.schema@ == input.schema@,
        PlanOp::Union(left, right) => {
            &&& plan_wf(*left)
            &&& plan_wf(*right)
            &&& left.schema@.len() == right.schema@.len()
            &&& p.schema@.len() == left.schema@.len()
            &&& forall|i: int|
                0 <= i < p.schema@.len() ==> Some((#[trigger] p.schema@[i]).ty) == spec_common_ty(
                    left.schema@[i].ty,
                    right.schema@[i].ty,
                )
            &&& forall|i: int|
                0 <= i < p.schema@.len() ==> (#[trigger] p.schema@[i]).name@
                    == left.schema@[i].name@
        },
        PlanOp::Window(wexprs, names, input) => {
            &&& plan_wf(*input)
            &&& exprs_wf(wexprs@, input.schema@)
            &&& forall|i: int|
                0 <= i < wexprs@.len() ==> ((#[trigger] wexprs@[i]) matches Expr::Window(_))
            &&& names@.len() == wexprs@.len()
            &&& p.schema@.len() == input.schema@.len() + wexprs@.len()
            &&& forall|i: int|
                0 <= i < input.schema@.len() ==> (#[trigger] p.schema@[i]) == input.schema@[i]
            &&& forall|i: int|
                0 <= i < wexprs@.len() ==> (#[trigger] p.schema@[input.schema@.len() + i]).name@
                    == names@[i]@ && p.schema@[input.schema@.len() + i].ty == wexprs@[i].spec_ty()
        },
    }
}

/// Every output column type of a well-formed plan is well-formed.
pub proof fn lemma_plan_schema_types_wf(p: PlanNode)
    requires
        plan_wf(p),
    ensures
        schema_types_wf(p.schema@),
    decreases p,
{
    match p.op {
        PlanOp::Scan(t) => {},
        PlanOp::Filter(pred, input) => {
            lemma_plan_schema_types_wf(*input);
        },
        PlanOp::Project(exprs, names, input) => {
            lemma_plan_schema_types_wf(*input);
            assert forall|i: int| 0 <= i < p.schema@.len() implies ty_wf(
                #[trigger] p.schema@[i].ty,
            ) by {
                assert(expr_wf(exprs@[i], input.schema@));
                crate::expr::lemma_expr_ty_wf(exprs@[i], input.schema@);
            }
        },
        PlanOp::Aggregate(group, aggs, names, input) => {
            lemma_plan_schema_types_wf(*input);
            assert forall|i: int| 0 <= i < p.schema@.len() implies ty_wf(
                #[trigger] p.schema@[i].ty,
            ) by {
                if i < group@.len() {
                    assert(expr_wf(group@[i], input.schema@));
                    crate::expr::lemma_expr_ty_wf(group@[i], input.schema@);
                } else {
                    let k = i - group@.len();
                    assert(expr_wf(aggs@[k], input.schema@));
                    crate::expr::lemma_expr_ty_wf(aggs@[k], input.schema@);
                    assert((p.schema@[group@.len() + k]).ty == aggs@[k].spec_ty());
                }
            }
        },
        PlanOp::Join(kind, cond, left, right) => {
            lemma_plan_schema_types_wf(*left);
            lemma_plan_schema_types_wf(*right);
            if !left_only(kind) {
                assert forall|i: int| 0 <= i < p.schema@.len() implies ty_wf(
                    #[trigger] p.schema@[i].ty,
                ) by {
                    if i < left.schema@.len() {
                        assert(p.schema@[i] == left.schema@[i]);
                    } else {
                        assert(p.schema@[i] == right.schema@[i - left.schema@.len()]);
                    }
                }
            }
        },
        PlanOp::Sort(keys, input) => {
            lemma_plan_schema_types_wf(*input);
        },
        PlanOp::Limit(_, input) => {
            lemma_plan_schema_types_wf(*input);
        },
        PlanOp::Union(left, right) => {
            lemma_plan_schema_types_wf(*left);
            lemma_plan_schema_types_wf(*right);
            assert forall|i: int| 0 <= i < p.schema@.len() implies ty_wf(
                #[trigger] p.schema@[i].ty,
            ) by {
                assert(left.schema@.len() == p.schema@.len());
                assert(ty_wf(left.schema@[i].ty));
                assert(ty_wf(right.schema@[i].ty));
                crate::types::lemma_common_ty_wf(left.schema@[i].ty, right.schema@[i].ty);
                assert(Some(p.schema@[i].ty) == spec_common_ty(
                    left.schema@[i].ty,
                    right.schema@[i].ty,
                ));
                assert(ty_wf(p.schema@[i].ty));
            }
        },
        PlanOp::Window(wexprs, names, input) => {
            lemma_plan_schema_types_wf(*input);
            assert forall|i: int| 0 <= i < p.schema@.len() implies ty_wf(
                #[trigger] p.schema@[i].ty,
            ) by {
                if i < input.schema@.len() {
                    assert(p.schema@[i] == input.schema@[i]);
                } else {
                    let k = i - input.schema@.len();
                    assert(expr_wf(wexprs@[k], input.schema@));
                    crate::expr::lemma_expr_ty_wf(wexprs@[k], input.schema@);
                    assert((p.schema@[input.schema@.len() + k]).ty == wexprs@[k].spec_ty());
                }
            }
        },
    }
}

/// A table reference of the FROM clause: a named catalog table, a derived
/// table (subquery), or a join of two references.
#[derive(Debug, PartialEq, Eq)]
pub enum TableRef {
    /// Namespace name and table name.
    Named(String, String),
    /// A nested SELECT used as a derived input table.
    Subquery(Box<SelectStmt>),
    /// A join with its kind and boolean condition.
    JoinRef(JoinKind, Box<AstExpr>, Box<TableRef>, Box<TableRef>),
}

/// One ORDER BY item.
#[derive(Debug, PartialEq, Eq)]
pub struct OrderItem {
    pub expr: AstExpr,
    pub asc: bool,
}

/// An externally parsed SELECT statement: projections with output names,
/// FROM, optional WHERE, GROUP BY, ORDER BY and LIMIT.
#[derive(Debug, PartialEq, Eq)]
pub struct SelectStmt {
    pub projections: Vec<(AstExpr, String)>,
    pub from: TableRef,
    pub selection: Option<AstExpr>,
    pub group_by: Vec<AstExpr>,
    pub order_by: Vec<OrderItem>,
    pub limit: Option<u64>,
}

/// A statement: a SELECT, or a UNION of two statements.
#[derive(Debug, PartialEq, Eq)]
pub enum AstStatement {
    Select(Box<SelectStmt>),
    UnionStmt(Box<AstStatement>, Box<AstStatement>),
}

/// A copy of table statistics with the same contents.
pub fn dup_stats(s: &Statistics) -> (r: Statistics)
    ensures
        r.row_count == s.row_count,
        r.col_stats@ == s.col_stats@,
{
    let mut col_stats: Vec<ColumnStat> = Vec::new();
    let mut i: usize = 0;
    while i < s.col_stats.len()
        invariant
            i <= s.col_stats@.len(),
            col_stats@.len() == i,
            forall|j: int| 0 <= j < i ==> col_stats@[j] == s.col_stats@[j],
        decreases s.col_stats@.len() - i,
    {
        col_stats.push(s.col_stats[i]);
        i = i + 1;
    }
    proof {
        assert(col_stats@ =~= s.col_stats@);
    }
    Statistics { row_count: s.row_count, col_stats }
}

/// A copy of a table definition with the same name, schema and statistics.
pub fn dup_table(t: &Table) -> (r: Table)
    ensures
        r.name == t.name,
        r.schema@ == t.schema@,
        match (r.stats, t.stats) {
            (Some(a), Some(b)) => a.row_count == b.row_count && a.col_stats@ == b.col_stats@,
            (None, None) => true,
            _ => false,
        },
        table_wf(*t) ==> table_wf(r),
{
    let stats = match &t.stats {
        Some(s) => Some(dup_stats(s)),
        None => None,
    };
    Table { name: t.name.clone(), schema: t.schema.dup(), stats }
}

/// The plan subtree reflects the FROM-clause reference it was built from:
/// a named reference becomes a scan of that catalog table (same name, same
/// schema), and a join reference becomes a join of that kind over the
/// subtrees of its sides. A derived table is constrained by
/// [`build_select`]'s own contract, not here.
pub open spec fn from_shape(p: PlanNode, tref: TableRef, cat: Catalog) -> bool
    decreases tref,
{
    match tref {
        TableRef::Named(nsn, tn) => match p.op {
            PlanOp::Scan(t) => t.name@ == tn@ && exists|i: int, j: int|
                #![auto]
                {
                    &&& 0 <= i < cat.namespaces@.len()
                    &&& cat.namespaces@[i].name@ == nsn@
                    &&& 0 <= j < cat.namespaces@[i].tables@.len()
                    &&& cat.namespaces@[i].tables@[j].name@ == tn@
                    &&& cat.namespaces@[i].tables@[j].schema@ == t.schema@
                },
            _ => false,
        },
        TableRef::Subquery(_) => true,
        TableRef::JoinRef(k, _, lt, rt) => match p.op {
            PlanOp::Join(k2, _, l, r) => k2 == k && from_shape(*l, *lt, cat) && from_shape(
                *r,
                *rt,
                cat,
            ),
            _ => false,
        },
    }
}

/// Some node of the plan tree satisfies the condition.
pub open spec fn some_node(p: PlanNode, f: spec_fn(PlanNode) -> bool) -> bool
    decreases p,
{
    f(p) || match p.op {
        PlanOp::Scan(_) => false,
        PlanOp::Filter(_, i) => some_node(*i, f),
        PlanOp::Project(_, _, i) => some_node(*i, f),
        PlanOp::Aggregate(_, _, _, i) => some_node(*i, f),
        PlanOp::Join(_, _, l, r) => some_node(*l, f) || some_node(*r, f),
        PlanOp::Sort(_, i) => some_node(*i, f),
        PlanOp::Limit(_, i) => some_node(*i, f),
        PlanOp::Union(l, r) => some_node(*l, f) || some_node(*r, f),
        PlanOp::Window(_, _, i) => some_node(*i, f),
    }
}

/// Somewhere in the plan stands the subtree built for the FROM clause.
pub open spec fn from_somewhere(p: PlanNode, tref: TableRef, cat: Catalog) -> bool {
    some_node(p, (|q: PlanNode| from_shape(q, tref, cat)))
}

/// Somewhere in the plan stands a filter whose predicate is the WHERE
/// clause, resolved against its input's schema.
pub open spec fn where_somewhere(p: PlanNode, sel: AstExpr) -> bool {
    some_node(
        p,
        (|q: PlanNode|
            match q.op {
                PlanOp::Filter(pred, input) => mirrors(pred, sel, input.schema@),
                _ => false,
            }),
    )
}

/// Somewhere in the plan stands an aggregate whose group-key list is the
/// GROUP BY clause, resolved key by key against its input's schema.
pub open spec fn group_somewhere(p: PlanNode, gb: Seq<AstExpr>) -> bool {
    some_node(
        p,
        (|q: PlanNode|
            match q.op {
                PlanOp::Aggregate(g, _, _, input) => g@.len() == gb.len() && forall|j: int|
                    0 <= j < g@.len() ==> mirrors(#[trigger] g@[j], gb[j], input.schema@),
                _ => false,
            }),
    )
}

/// The expression is one of the sequence's elements.
pub open spec fn expr_among(e: Expr, es: Seq<Expr>) -> bool {
    exists|j: int| 0 <= j < es.len() && e == #[trigger] es[j]
}

/// Somewhere in the plan stands a projection computing exactly the SELECT
/// list, expression by expression, resolved against its input's schema.
pub open spec fn projections_somewhere(p: PlanNode, prs: Seq<(AstExpr, String)>) -> bool {
    some_node(
        p,
        (|q: PlanNode|
            match q.op {
                PlanOp::Project(es, _, input) => es@.len() == prs.len() && forall|j: int|
                    0 <= j < es@.len() ==> mirrors(#[trigger] es@[j], prs[j].0, input.schema@),
                _ => false,
            }),
    )
}

/// The expression resolves one of the SELECT list's expressions against
/// the given input schema.
pub open spec fn mirrored_among(e: Expr, prs: Seq<(AstExpr, String)>, input: Seq<Column>) -> bool {
    exists|j: int| 0 <= j < prs.len() && mirrors(e, (#[trigger] prs[j]).0, input)
}

/// Every expression of the list is one of the SELECT list's expressions,
/// resolved against the given input schema.
pub open spec fn aggs_from(a: Seq<Expr>, prs: Seq<(AstExpr, String)>, input: Seq<Column>) -> bool {
    forall|k: int| 0 <= k < a.len() ==> mirrored_among(#[trigger] a[k], prs, input)
}

/// Somewhere in the plan stands an aggregate whose every aggregate
/// expression is one of the SELECT list's expressions, resolved against
/// its input's schema.
pub open spec fn aggregates_somewhere(p: PlanNode, prs: Seq<(AstExpr, String)>) -> bool {
    some_node(
        p,
        (|q: PlanNode|
            match q.op {
                PlanOp::Aggregate(_, a, _, input) => aggs_from(a@, prs, input.schema@),
                _ => false,
            }),
    )
}

/// Build the plan subtree for a FROM-clause table reference.
#[verifier::loop_isolation(false)]
pub fn build_from(tref: &TableRef, catalog: &Catalog, ns: &String) -> (r: Result<
    PlanNode,
    PlanError,
>)
    requires
        crate::catalog::catalog_wf(*catalog),
    ensures
        r matches Ok(p) ==> plan_wf(p) && from_shape(p, *tref, *catalog),
    decreases *tref,
{
    match tref {
        TableRef::Named(ns_name, t_name) => match catalog.lookup_table(ns_name, t_name) {
            None => Err(PlanError::UnknownTable(t_name.clone())),
            Some(t) => {
                proof {
                    let (i, j) = choose|i: int, j: int|
                        #![auto]
                        {
                            &&& 0 <= i < catalog.namespaces@.len()
                            &&& catalog.namespaces@[i].name@ == ns_name@
                            &&& 0 <= j < catalog.namespaces@[i].tables@.len()
                            &&& *t == catalog.namespaces@[i].tables@[j]
                            &&& t.name@ == t_name@
                        };
                    assert(crate::catalog::namespace_wf(catalog.namespaces@[i]));
                    assert(table_wf(*t));
                }
                let t2 = dup_table(t);
                let schema = t2.schema.dup();
                let node = PlanNode { op: PlanOp::Scan(t2), schema };
                proof {
                    let (i, j) = choose|i: int, j: int|
                        #![auto]
                        {
                            &&& 0 <= i < catalog.namespaces@.len()
                            &&& catalog.namespaces@[i].name@ == ns_name@
                            &&& 0 <= j < catalog.namespaces@[i].tables@.len()
                            &&& *t == catalog.namespaces@[i].tables@[j]
                            &&& t.name@ == t_name@
                        };
                    match &node.op {
                        PlanOp::Scan(nt) => {
                            assert(nt.name@ == t_name@);
                            assert(0 <= i < catalog.namespaces@.len()
                                && catalog.namespaces@[i].name@ == ns_name@ && 0 <= j
                                < catalog.namespaces@[i].tables@.len()
                                && catalog.namespaces@[i].tables@[j].name@ == t_name@
                                && catalog.namespaces@[i].tables@[j].schema@ == nt.schema@);
                        },
                        _ => {},
                    }
                }
                Ok(node)
            },
        },
        TableRef::Subquery(s) => build_select(s, catalog, ns),
        TableRef::JoinRef(kind, cond, l, r) => {
            let left = match build_from(l, catalog, ns) {
                Ok(p) => p,
                Err(e) => {
                    return Err(e);
                },
            };
            let right = match build_from(r, catalog, ns) {
                Ok(p) => p,
                Err(e) => {
                    return Err(e);
                },
            };
            let joined = left.schema.concat(&right.schema);
            proof {
                lemma_plan_schema_types_wf(left);
                lemma_plan_schema_types_wf(right);
                assert forall|i: int| 0 <= i < joined@.len() implies ty_wf(
                    #[trigger] joined@[i].ty,
                ) by {
                    if i < left.schema@.len() {
                        assert(joined@[i] == left.schema@[i]);
                    } else {
                        assert(joined@[i] == right.schema@[i - left.schema@.len()]);
                    }
                }
            }
            let cond_e = match build_expr(cond, &joined, catalog, ns) {
                Ok(e) => e,
                Err(e) => {
                    return Err(e);
                },
            };
            if !matches!(cond_e.ty().kind, TyKind::Boolean) {
                return Err(PlanError::TypeMismatch);
            }
            let schema = if matches!(kind, JoinKind::Semi | JoinKind::Anti) {
                left.schema.dup()
            } else {
                joined
            };
            Ok(
                PlanNode {
                    op: PlanOp::Join(*kind, cond_e, Box::new(left), Box::new(right)),
                    schema,
                },
            )
        },
    }
}

/// Build the plan for a SELECT statement: FROM/JOIN, then WHERE, then
/// GROUP BY/aggregation, then the projection, then ORDER BY and LIMIT.
/// Every non-aggregated projection must be one of the group keys
/// (`GroupByMismatch` otherwise); the WHERE predicate must be boolean
/// (`TypeMismatch` otherwise); child errors propagate unchanged.
#[verifier::loop_isolation(false)]
pub fn build_select(stmt: &SelectStmt, catalog: &Catalog, ns: &String) -> (r: Result<
    PlanNode,
    PlanError,
>)
    requires
        crate::catalog::catalog_wf(*catalog),
    ensures
        r matches Ok(p) ==> plan_wf(p) && p.schema@.len() == stmt.projections@.len() && forall|
            j: int,
        | 0 <= j < stmt.projections@.len() ==> (#[trigger] p.schema@[j]).name@
            == stmt.projections@[j].1@,
        r matches Ok(p) ==> from_somewhere(p, stmt.from, *catalog),
        match (r, stmt.selection) {
            (Ok(p), Some(sel)) => where_somewhere(p, sel),
            _ => true,
        },
        match r {
            Ok(p) => stmt.group_by@.len() > 0 ==> group_somewhere(p, stmt.group_by@),
            _ => true,
        },
        match r {
            Ok(p) => projections_somewhere(p, stmt.projections@) || aggregates_somewhere(
                p,
                stmt.projections@,
            ),
            _ => true,
        },
    decreases *stmt,
{
    let mut node = match build_from(&stmt.from, catalog, ns) {
        Ok(p) => p,
        Err(e) => {
            return Err(e);
        },
    };
    proof {
        lemma_plan_schema_types_wf(node);
        assert(from_somewhere(node, stmt.from, *catalog));
    }
    // WHERE
    match &stmt.selection {
        Some(sel) => {
            let pred = match build_expr(sel, &node.schema, catalog, ns) {
                Ok(e) => e,
                Err(e) => {
                    return Err(e);
                },
            };
            if !matches!(pred.ty().kind, TyKind::Boolean) {
                return Err(PlanError::TypeMismatch);
            }
            let schema = node.schema.dup();
            node = PlanNode { op: PlanOp::Filter(pred, Box::new(node)), schema };
            proof {
                assert(where_somewhere(node, *sel));
            }
        },
        None => {},
    }
    proof {
        lemma_plan_schema_types_wf(node);
        assert(from_somewhere(node, stmt.from, *catalog));
        assert(match stmt.selection {
            Some(sel) => where_somewhere(node, sel),
            None => true,
        });
    }
    // GROUP BY keys
    let mut group: Vec<Expr> = Vec::new();
    let mut gi: usize = 0;
    while gi < stmt.group_by.len()
        invariant
            gi <= stmt.group_by@.len(),
            group@.len() == gi,
            forall|j: int| 0 <= j < gi ==> expr_wf(#[trigger] group@[j], node.schema@),
            forall|j: int| 0 <= j < gi ==> !spec_contains_agg(#[trigger] group@[j]),
            forall|j: int|
                0 <= j < gi ==> mirrors(#[trigger] group@[j], stmt.group_by@[j], node.schema@),
        decreases stmt.group_by@.len() - gi,
    {
        let g = match build_expr(&stmt.group_by[gi], &node.schema, catalog, ns) {
            Ok(e) => e,
            Err(e) => {
                return Err(e);
            },
        };
        if crate::expr::contains_agg(&g) {
            return Err(PlanError::GroupByMismatch);
        }
        group.push(g);
        gi = gi + 1;
    }
    // projections
    let mut projs: Vec<Expr> = Vec::new();
    let mut names: Vec<String> = Vec::new();
    let mut any_agg: bool = false;
    let mut pi: usize = 0;
    while pi < stmt.projections.len()
        invariant
            pi <= stmt.projections@.len(),
            projs@.len() == pi,
            names@.len() == pi,
            forall|j: int| 0 <= j < pi ==> expr_wf(#[trigger] projs@[j], node.schema@),
            forall|j: int| 0 <= j < pi ==> ty_wf((#[trigger] projs@[j]).spec_ty()),
            forall|j: int| 0 <= j < pi ==> (#[trigger] names@[j]) == stmt.projections@[j].1,
            forall|j: int|
                0 <= j < pi ==> mirrors(#[trigger] projs@[j], stmt.projections@[j].0, node.schema@),
        decreases stmt.projections@.len() - pi,
    {
        let e = match build_expr(&stmt.projections[pi].0, &node.schema, catalog, ns) {
            Ok(e) => e,
            Err(e) => {
                return Err(e);
            },
        };
        if crate::expr::contains_agg(&e) {
            any_agg = true;
        }
        projs.push(e);
        names.push(stmt.projections[pi].1.clone());
        pi = pi + 1;
    }
    let grouped = group.len() > 0 || any_agg;
    let ghost gnode0 = node;
    let ghost ggroup = group@;
    let ghost gprojs0 = projs@;
    let mut top = if grouped {
        match build_aggregate(node, group, projs, names, catalog) {
            Ok(p) => {
                proof {
                    match &p.op {
                        PlanOp::Project(_, _, inner) => match &inner.op {
                            PlanOp::Aggregate(g2, a2, _, inp) => {
                                assert(**inp == gnode0);
                                assert(g2@ == ggroup);
                                assert forall|k: int| 0 <= k < a2@.len() implies mirrored_among(
                                    #[trigger] a2@[k],
                                    stmt.projections@,
                                    inp.schema@,
                                ) by {
                                    assert(expr_among(a2@[k], gprojs0));
                                    let j0 = choose|j0: int|
                                        0 <= j0 < gprojs0.len() && a2@[k]
                                            == #[trigger] gprojs0[j0];
                                    assert(mirrors(
                                        a2@[k],
                                        (stmt.projections@[j0]).0,
                                        inp.schema@,
                                    ));
                                }
                                assert(aggs_from(a2@, stmt.projections@, inp.schema@));
                                assert(aggregates_somewhere(**inner, stmt.projections@));
                                assert(aggregates_somewhere(p, stmt.projections@));
                                assert(from_somewhere(**inp, stmt.from, *catalog));
                                assert(from_somewhere(**inner, stmt.from, *catalog));
                                assert(from_somewhere(p, stmt.from, *catalog));
                                match &stmt.selection {
                                    Some(sel) => {
                                        assert(where_somewhere(**inp, *sel));
                                        assert(where_somewhere(**inner, *sel));
                                        assert(where_somewhere(p, *sel));
                                    },
                                    None => {},
                                }
                                if stmt.group_by@.len() > 0 {
                                    assert(ggroup.len() == stmt.group_by@.len());
                                    assert(forall|j: int|
                                        0 <= j < ggroup.len() ==> mirrors(
                                            #[trigger] ggroup[j],
                                            stmt.group_by@[j],
                                            gnode0.schema@,
                                        ));
                                    assert(group_somewhere(**inner, stmt.group_by@));
                                    assert(group_somewhere(p, stmt.group_by@));
                                }
                            },
                            _ => {
                                assert(false);
                            },
                        },
                        _ => {
                            assert(false);
                        },
                    }
                }
                p
            },
            Err(e) => {
                return Err(e);
            },
        }
    } else {
        // plain projection: no aggregate calls may remain
        let mut k: usize = 0;
        while k < projs.len()
            invariant
                k <= projs@.len(),
                forall|j: int| 0 <= j < k ==> !spec_contains_agg(#[trigger] projs@[j]),
            decreases projs@.len() - k,
        {
            if crate::expr::contains_agg(&projs[k]) {
                return Err(PlanError::GroupByMismatch);
            }
            k = k + 1;
        }
        let schema = project_schema(&projs, &names);
        let ghost gprojs = projs@;
        let ghost gnames = names@;
        let ghost gnode = node;
        let p2 = PlanNode { op: PlanOp::Project(projs, names, Box::new(node)), schema };
        proof {
            assert(plan_wf(gnode));
            assert(exprs_wf(gprojs, gnode.schema@));
            assert(forall|j: int|
                0 <= j < gprojs.len() ==> !spec_contains_agg(#[trigger] gprojs[j]));
            assert(gnames.len() == gprojs.len());
            assert(p2.schema@.len() == gprojs.len());
            assert(forall|j: int|
                0 <= j < gprojs.len() ==> (#[trigger] p2.schema@[j]).name@ == gnames[j]@
                    && p2.schema@[j].ty == gprojs[j].spec_ty());
            assert(plan_wf(p2));
            assert(from_somewhere(p2, stmt.from, *catalog));
            assert(match stmt.selection {
                Some(sel) => where_somewhere(p2, sel),
                None => true,
            });
            assert(stmt.group_by@.len() == 0);
            assert(projections_somewhere(p2, stmt.projections@));
        }
        p2
    };
    proof {
        lemma_plan_schema_types_wf(top);
        assert(from_somewhere(top, stmt.from, *catalog));
        assert(match stmt.selection {
            Some(sel) => where_somewhere(top, sel),
            None => true,
        });
        if stmt.group_by@.len() > 0 {
            assert(group_somewhere(top, stmt.group_by@));
        }
        assert(projections_somewhere(top, stmt.projections@) || aggregates_somewhere(
            top,
            stmt.projections@,
        ));
    }
    // ORDER BY
    if stmt.order_by.len() > 0 {
        let mut keys: Vec<SortKey> = Vec::new();
        let mut oi: usize = 0;
        while oi < stmt.order_by.len()
            invariant
                oi <= stmt.order_by@.len(),
                keys@.len() == oi,
                forall|j: int| 0 <= j < oi ==> expr_wf((#[trigger] keys@[j]).expr, top.schema@),
                forall|j: int|
                    0 <= j < oi ==> spec_is_orderable((#[trigger] keys@[j]).expr.spec_ty().kind),
            decreases stmt.order_by@.len() - oi,
        {
            let e = match build_expr(&stmt.order_by[oi].expr, &top.schema, catalog, ns) {
                Ok(e) => e,
                Err(e) => {
                    return Err(e);
                },
            };
            if !is_orderable(&e.ty().kind) {
                return Err(PlanError::TypeMismatch);
            }
            keys.push(SortKey { expr: e, asc: stmt.order_by[oi].asc });
            oi = oi + 1;
        }
        let schema = top.schema.dup();
        top = PlanNode { op: PlanOp::Sort(keys, Box::new(top)), schema };
        proof {
            assert(plan_wf(top));
            assert(from_somewhere(top, stmt.from, *catalog));
            assert(match stmt.selection {
                Some(sel) => where_somewhere(top, sel),
                None => true,
            });
            if stmt.group_by@.len() > 0 {
                assert(group_somewhere(top, stmt.group_by@));
            }
            assert(projections_somewhere(top, stmt.projections@) || aggregates_somewhere(
                top,
                stmt.projections@,
            ));
        }
    }
    // LIMIT
    match stmt.limit {
        Some(n) => {
            let schema = top.schema.dup();
            top = PlanNode { op: PlanOp::Limit(n, Box::new(top)), schema };
            proof {
                assert(plan_wf(top));
                assert(from_somewhere(top, stmt.from, *catalog));
                assert(match stmt.selection {
                    Some(sel) => where_somewhere(top, sel),
                    None => true,
                });
                if stmt.group_by@.len() > 0 {
                    assert(group_somewhere(top, stmt.group_by@));
                }
                assert(projections_somewhere(top, stmt.projections@) || aggregates_somewhere(
                    top,
                    stmt.projections@,
                ));
            }
        },
        None => {},
    }
    Ok(top)
}

/// The derived schema of a projection: the expression types under the
/// output names.
#[verifier::loop_isolation(false)]
fn project_schema(exprs: &Vec<Expr>, names: &Vec<String>) -> (s: Schema)
    requires
        names@.len() == exprs@.len(),
    ensures
        s@.len() == exprs@.len(),
        forall|i: int|
            0 <= i < exprs@.len() ==> (#[trigger] s@[i]).name@ == names@[i]@ && s@[i].ty
                == exprs@[i].spec_ty(),
{
    let mut s = Schema::empty();
    let mut i: usize = 0;
    while i < exprs.len()
        invariant
            i <= exprs@.len(),
            s@.len() == i,
            forall|j: int|
                0 <= j < i ==> (#[trigger] s@[j]).name@ == names@[j]@ && s@[j].ty
                    == exprs@[j].spec_ty(),
        decreases exprs@.len() - i,
    {
        let ty = dup_ty(exprs[i].ty());
        s.push(Column { name: names[i].clone(), ty });
        i = i + 1;
    }
    s
}

/// Build the Aggregate node (and the projection above it) for a grouped
/// SELECT: the group keys form the leading output columns, the aggregated
/// projections follow, and the top projection restores the SELECT order.
/// Every projection must either contain an aggregate call or be a column
/// reference that is one of the group keys; anything else is a
/// `GroupByMismatch`.
#[verifier::loop_isolation(false)]
fn build_aggregate(
    input: PlanNode,
    group: Vec<Expr>,
    projs: Vec<Expr>,
    names: Vec<String>,
    catalog: &Catalog,
) -> (r: Result<PlanNode, PlanError>)
    requires
        plan_wf(input),
        exprs_wf(group@, input.schema@),
        forall|j: int| 0 <= j < group@.len() ==> !spec_contains_agg(#[trigger] group@[j]),
        exprs_wf(projs@, input.schema@),
        forall|j: int| 0 <= j < projs@.len() ==> ty_wf((#[trigger] projs@[j]).spec_ty()),
        names@.len() == projs@.len(),
    ensures
        r matches Ok(p) ==> plan_wf(p) && p.schema@.len() == names@.len() && forall|j: int|
            0 <= j < names@.len() ==> (#[trigger] p.schema@[j]).name@ == names@[j]@,
        r matches Ok(p) ==> match p.op {
            PlanOp::Project(_, _, inner) => match inner.op {
                PlanOp::Aggregate(g2, a2, _, inp) => g2 == group && *inp == input && forall|
                    k: int,
                |
                    0 <= k < a2@.len() ==> expr_among(#[trigger] a2@[k], projs@),
                _ => false,
            },
            _ => false,
        },
{
    proof {
        lemma_plan_schema_types_wf(input);
    }
    let ghost oprojs = projs@;
    let glen = group.len();
    // classify each projection: an aggregate expression, or a group key
    let mut rest = projs;
    let rlen: usize = rest.len();
    proof {
        assert(oprojs.len() == rlen);
    }
    let mut aggs: Vec<Expr> = Vec::new();
    let mut agg_aliases: Vec<String> = Vec::new();
    let mut pos: Vec<PosRef> = Vec::new();
    let mut i: usize = 0;
    while rest.len() > 0
        invariant
            oprojs.len() <= usize::MAX,
            i + rest@.len() == oprojs.len(),
            rest@ == oprojs.skip(i as int),
            pos@.len() == i,
            aggs@.len() == agg_aliases@.len(),
            glen == group@.len(),
            forall|j: int| 0 <= j < aggs@.len() ==> expr_wf(#[trigger] aggs@[j], input.schema@),
            forall|j: int| 0 <= j < aggs@.len() ==> spec_contains_agg(#[trigger] aggs@[j]),
            forall|k: int| 0 <= k < aggs@.len() ==> expr_among(#[trigger] aggs@[k], oprojs),
            forall|j: int|
                0 <= j < i ==> match #[trigger] pos@[j] {
                    PosRef::PGroup(g) => g < glen && group@[g as int].spec_ty()
                        == oprojs[j].spec_ty(),
                    PosRef::PAgg(a) => a < aggs@.len() && aggs@[a as int].spec_ty()
                        == oprojs[j].spec_ty(),
                },
        decreases rest@.len(),
    {
        proof {
            assert(rest@[0] == oprojs[i as int]);
        }
        let e = rest.remove(0);
        if crate::expr::contains_agg(&e) {
            pos.push(PosRef::PAgg(aggs.len()));
            let ghost aggs_pre = aggs@;
            aggs.push(e);
            agg_aliases.push(names[i].clone());
            proof {
                assert forall|k: int| 0 <= k < aggs@.len() implies expr_among(
                    #[trigger] aggs@[k],
                    oprojs,
                ) by {
                    if k < aggs_pre.len() {
                        assert(aggs@[k] == aggs_pre[k]);
                        assert(expr_among(aggs_pre[k], oprojs));
                    } else {
                        assert(aggs@[k] == oprojs[i as int]);
                        assert((i as int) < oprojs.len() && aggs@[k] == oprojs[i as int]);
                    }
                }
            }
        } else {
            // must be a column reference matching one of the group keys
            let ci = match &e {
                Expr::ColumnRef(c, _) => *c,
                _ => {
                    return Err(PlanError::GroupByMismatch);
                },
            };
            let mut g: usize = 0;
            let mut found: Option<usize> = None;
            while g < group.len()
                invariant
                    g <= group@.len(),
                    match found {
                        None => true,
                        Some(fg) => fg < group@.len() && group@[fg as int].spec_ty()
                            == e.spec_ty(),
                    },
                decreases group@.len() - g,
            {
                if matches!(found, None) {
                    match &group[g] {
                        Expr::ColumnRef(cg, _) => {
                            if *cg == ci {
                                proof {
                                    assert(expr_wf(group@[g as int], input.schema@));
                                    assert(expr_wf(e, input.schema@));
                                }
                                found = Some(g);
                            }
                        },
                        _ => {},
                    }
                }
                g = g + 1;
            }
            match found {
                Some(fg) => {
                    pos.push(PosRef::PGroup(fg));
                },
                None => {
                    return Err(PlanError::GroupByMismatch);
                },
            }
        }
        i = i + 1;
    }
    // the aggregate's output schema: group keys, then aggregates
    let mut agg_schema = Schema::empty();
    let mut all_names: Vec<String> = Vec::new();
    let mut g2: usize = 0;
    while g2 < group.len()
        invariant
            g2 <= group@.len(),
            agg_schema@.len() == g2,
            all_names@.len() == g2,
            forall|j: int|
                0 <= j < g2 ==> (#[trigger] agg_schema@[j]).ty == group@[j].spec_ty()
                    && agg_schema@[j].name@ == all_names@[j]@,
        decreases group@.len() - g2,
    {
        let nm: String = match &group[g2] {
            Expr::ColumnRef(c, _) => input.schema.col(*c).name.clone(),
            _ => String::new(),
        };
        proof {
            assert(expr_wf(group@[g2 as int], input.schema@));
        }
        let ty = dup_ty(group[g2].ty());
        all_names.push(nm.clone());
        agg_schema.push(Column { name: nm, ty });
        g2 = g2 + 1;
    }
    let mut a2: usize = 0;
    while a2 < aggs.len()
        invariant
            a2 <= aggs@.len(),
            glen == group@.len(),
            aggs@.len() == agg_aliases@.len(),
            agg_schema@.len() == glen + a2,
            all_names@.len() == glen + a2,
            forall|j: int|
                0 <= j < glen ==> (#[trigger] agg_schema@[j]).ty == group@[j].spec_ty()
                    && agg_schema@[j].name@ == all_names@[j]@,
            forall|j: int|
                0 <= j < a2 ==> (#[trigger] agg_schema@[glen + j]).ty == aggs@[j].spec_ty()
                    && agg_schema@[glen + j].name@ == all_names@[glen + j]@,
        decreases aggs@.len() - a2,
    {
        let nm = agg_aliases[a2].clone();
        let ty = dup_ty(aggs[a2].ty());
        all_names.push(nm.clone());
        agg_schema.push(Column { name: nm, ty });
        a2 = a2 + 1;
    }
    proof {
        assert forall|j: int| 0 <= j < agg_schema@.len() implies (
        #[trigger] agg_schema@[j]).name@ == all_names@[j]@ by {
            if j >= glen {
                assert(agg_schema@[glen + (j - glen)].name@ == all_names@[glen + (j - glen)]@);
            }
        }
    }
    let agg_node = PlanNode {
        op: PlanOp::Aggregate(group, aggs, all_names, Box::new(input)),
        schema: agg_schema,
    };
    proof {
        assert(plan_wf(agg_node));
        lemma_plan_schema_types_wf(agg_node);
    }
    // the projection above restores the SELECT order by position
    let slen: usize = agg_node.schema.len();
    let mut out: Vec<Expr> = Vec::new();
    let mut k: usize = 0;
    while k < pos.len()
        invariant
            k <= pos@.len(),
            out@.len() == k,
            pos@.len() == oprojs.len(),
            forall|j: int| 0 <= j < k ==> expr_wf(#[trigger] out@[j], agg_node.schema@),
            forall|j: int| 0 <= j < k ==> !spec_contains_agg(#[trigger] out@[j]),
            forall|j: int| 0 <= j < k ==> (#[trigger] out@[j]).spec_ty() == oprojs[j].spec_ty(),
        decreases pos@.len() - k,
    {
        let p: usize = match pos[k] {
            PosRef::PGroup(g) => g,
            PosRef::PAgg(a) => {
                proof {
                    assert(pos@[k as int] == PosRef::PAgg(a));
                    assert(a < aggs@.len());
                    assert(agg_node.schema@.len() == glen + aggs@.len());
                    assert(glen + a < slen);
                }
                glen + a
            },
        };
        proof {
            match pos@[k as int] {
                PosRef::PGroup(g) => {
                    assert(agg_node.schema@[g as int].ty == group@[g as int].spec_ty());
                },
                PosRef::PAgg(a) => {
                    assert(agg_node.schema@[glen + a as int].ty == aggs@[a as int].spec_ty());
                },
            }
        }
        let ty = dup_ty(&agg_node.schema.col(p).ty);
        out.push(Expr::ColumnRef(p, ty));
        k = k + 1;
    }
    let schema = project_schema(&out, &names);
    proof {
        assert(oprojs == projs@);
        assert(forall|k: int|
            0 <= k < aggs@.len() ==> expr_among(#[trigger] aggs@[k], projs@));
    }
    Ok(PlanNode { op: PlanOp::Project(out, names, Box::new(agg_node)), schema })
}

/// Where a grouped projection's output column lives: a group key position
/// or an aggregate position.
#[derive(Debug, Clone, Copy, PartialEq, Eq, Structural)]
enum PosRef {
    PGroup(usize),
    PAgg(usize),
}

/// Build a Window node over an input plan: each syntax-tree expression
/// must be a window call (anything else is a `TypeMismatch`); the window
/// columns are appended, under the given names, after the input's own
/// columns.
#[verifier::loop_isolation(false)]
pub fn build_window(
    input: PlanNode,
    calls: &Vec<AstExpr>,
    names: &Vec<String>,
    catalog: &Catalog,
    ns: &String,
) -> (r: Result<PlanNode, PlanError>)
    requires
        crate::catalog::catalog_wf(*catalog),
        plan_wf(input),
        names@.len() == calls@.len(),
    ensures
        r matches Ok(p) ==> plan_wf(p),
{
    proof {
        lemma_plan_schema_types_wf(input);
    }
    let mut wexprs: Vec<Expr> = Vec::new();
    let mut i: usize = 0;
    while i < calls.len()
        invariant
            i <= calls@.len(),
            wexprs@.len() == i,
            forall|j: int| 0 <= j < i ==> expr_wf(#[trigger] wexprs@[j], input.schema@),
            forall|j: int| 0 <= j < i ==> ty_wf((#[trigger] wexprs@[j]).spec_ty()),
            forall|j: int| 0 <= j < i ==> ((#[trigger] wexprs@[j]) matches Expr::Window(_)),
        decreases calls@.len() - i,
    {
        let e = match build_expr(&calls[i], &input.schema, catalog, ns) {
            Ok(e) => e,
            Err(pe) => {
                return Err(pe);
            },
        };
        if !matches!(e, Expr::Window(_)) {
            return Err(PlanError::TypeMismatch);
        }
        wexprs.push(e);
        i = i + 1;
    }
    let mut schema = input.schema.dup();
    let mut k: usize = 0;
    while k < wexprs.len()
        invariant
            k <= wexprs@.len(),
            names@.len() == wexprs@.len(),
            schema@.len() == input.schema@.len() + k,
            forall|j: int|
                0 <= j < input.schema@.len() ==> (#[trigger] schema@[j]) == input.schema@[j],
            forall|j: int|
                0 <= j < k ==> (#[trigger] schema@[input.schema@.len() + j]).name@ == names@[j]@
                    && schema@[input.schema@.len() + j].ty == wexprs@[j].spec_ty(),
        decreases wexprs@.len() - k,
    {
        let ty = dup_ty(wexprs[k].ty());
        schema.push(Column { name: names[k].clone(), ty });
        k = k + 1;
    }
    let mut out_names: Vec<String> = Vec::new();
    let mut n: usize = 0;
    while n < names.len()
        invariant
            n <= names@.len(),
            out_names@.len() == n,
            forall|j: int| 0 <= j < n ==> (#[trigger] out_names@[j]) == names@[j],
        decreases names@.len() - n,
    {
        out_names.push(names[n].clone());
        n = n + 1;
    }
    let node = PlanNode {
        op: PlanOp::Window(wexprs, out_names, Box::new(input)),
        schema,
    };
    proof {
        assert(plan_wf(node));
    }
    Ok(node)
}

/// Build the plan for a statement: a SELECT, or a UNION whose inputs must
/// have column-wise compatible schemas (`SchemaIncompatible` otherwise);
/// the union's output takes the common type of each column pair under the
/// left input's names.
#[verifier::loop_isolation(false)]
pub fn build_plan(stmt: &AstStatement, catalog: &Catalog, ns: &String) -> (r: Result<
    PlanNode,
    PlanError,
>)
    requires
        crate::catalog::catalog_wf(*catalog),
    ensures
        r matches Ok(p) ==> plan_wf(p),
        match r {
            Ok(p) => match *stmt {
                AstStatement::Select(sel) => p.schema@.len() == sel.projections@.len() && forall|
                    j: int,
                | 0 <= j < sel.projections@.len() ==> (#[trigger] p.schema@[j]).name@
                    == sel.projections@[j].1@,
                _ => true,
            },
            _ => true,
        },
        match r {
            Ok(p) => match *stmt {
                AstStatement::Select(sel) => {
                    &&& from_somewhere(p, sel.from, *catalog)
                    &&& (sel.selection matches Some(w) ==> where_somewhere(p, w))
                    &&& (sel.group_by@.len() > 0 ==> group_somewhere(p, sel.group_by@))
                    &&& (projections_somewhere(p, sel.projections@) || aggregates_somewhere(
                        p,
                        sel.projections@,
                    ))
                },
                _ => true,
            },
            _ => true,
        },
    decreases *stmt,
{
    match stmt {
        AstStatement::Select(s) => build_select(s, catalog, ns),
        AstStatement::UnionStmt(a, b) => {
            let left = match build_plan(a, catalog, ns) {
                Ok(p) => p,
                Err(e) => {
                    return Err(e);
                },
            };
            let right = match build_plan(b, catalog, ns) {
                Ok(p) => p,
                Err(e) => {
                    return Err(e);
                },
            };
            if left.schema.len() != right.schema.len() {
                return Err(PlanError::SchemaIncompatible);
            }
            proof {
                lemma_plan_schema_types_wf(left);
                lemma_plan_schema_types_wf(right);
            }
            let mut cols = Schema::empty();
            let mut i: usize = 0;
            while i < left.schema.len()
                invariant
                    i <= left.schema@.len(),
                    left.schema@.len() == right.schema@.len(),
                    cols@.len() == i,
                    forall|j: int|
                        0 <= j < i ==> Some((#[trigger] cols@[j]).ty) == spec_common_ty(
                            left.schema@[j].ty,
                            right.schema@[j].ty,
                        ) && cols@[j].name@ == left.schema@[j].name@,
                decreases left.schema@.len() - i,
            {
                let lc = left.schema.col(i);
                let rc = right.schema.col(i);
                match common_ty(&lc.ty, &rc.ty) {
                    Some(t) => {
                        cols.push(Column { name: lc.name.clone(), ty: t });
                    },
                    None => {
                        return Err(PlanError::SchemaIncompatible);
                    },
                }
                i = i + 1;
            }
            Ok(PlanNode { op: PlanOp::Union(Box::new(left), Box::new(right)), schema: cols })
        },
    }
}

/// Rebuilding a projection's output schema from its root node gives,
/// column by column, exactly the types of its projected expressions: the
/// stored schema of a well-formed Project node never drifts from what
/// independent type resolution of each top-level expression yields.
pub proof fn lemma_project_schema_from_exprs(p: PlanNode)
    requires
        plan_wf(p),
        p.op matches PlanOp::Project(_, _, _),
    ensures
        match p.op {
            PlanOp::Project(exprs, _, _) => p.schema@.len() == exprs@.len() && forall|i: int|
                0 <= i < exprs@.len() ==> (#[trigger] p.schema@[i]).ty == exprs@[i].spec_ty(),
            _ => false,
        },
{
}

} // verus!
