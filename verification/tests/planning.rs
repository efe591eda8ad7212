use dask_planner::catalog::{ColumnStat, FnKind, FunctionDef, ReturnRule, Statistics, Table};
use dask_planner::context::PlanContext;
use dask_planner::error::ErrorKind;
use dask_planner::expr::{AstExpr, BinOp, Expr};
use dask_planner::plan::{AstStatement, PlanNode, PlanOp, SelectStmt, TableRef};
use dask_planner::schema::{Column, Schema};
use dask_planner::types::{Ty, TyKind};

fn ty(kind: TyKind) -> Ty {
    Ty { kind, nullable: false }
}

fn col(name: &str, kind: TyKind) -> Column {
    Column { name: name.to_string(), ty: ty(kind) }
}

fn s(x: &str) -> String {
    x.to_string()
}

/// Catalog with `orders(id INT, amount DECIMAL(10,2), status VARCHAR)` and
/// an aggregate `sum(DECIMAL(10,2)) -> DECIMAL(10,2)`.
fn orders_context() -> PlanContext {
    let mut ctx = PlanContext::new();
    ctx.register_schema(s("main")).unwrap();
    let schema = Schema {
        cols: vec![
            col("id", TyKind::Int32),
            col("amount", TyKind::Decimal(10, 2)),
            col("status", TyKind::Varchar),
        ],
    };
    ctx.register_table(&s("main"), Table { name: s("orders"), schema, stats: None }).unwrap();
    ctx.register_function(
        &s("main"),
        FunctionDef {
            name: s("sum"),
            params: vec![ty(TyKind::Decimal(10, 2))],
            ret: ReturnRule::SameAsArg(0),
            kind: FnKind::Aggregate,
        },
    )
    .unwrap();
    ctx
}

fn select_stmt(projections: Vec<(AstExpr, String)>, from: TableRef) -> SelectStmt {
    SelectStmt {
        projections,
        from,
        selection: None,
        group_by: vec![],
        order_by: vec![],
        limit: None,
    }
}

#[test]
fn grouped_select_builds_aggregate_with_filter_below_projection() {
    let ctx = orders_context();
    let stmt = SelectStmt {
        projections: vec![
            (AstExpr::Col(s("status")), s("status")),
            (
                AstExpr::Call(s("sum"), vec![AstExpr::Col(s("amount"))]),
                s("sum(amount)"),
            ),
        ],
        from: TableRef::Named(s("main"), s("orders")),
        selection: Some(AstExpr::Binary(
            BinOp::Gt,
            Box::new(AstExpr::Col(s("amount"))),
            Box::new(AstExpr::IntLit(0)),
        )),
        group_by: vec![AstExpr::Col(s("status"))],
        order_by: vec![],
        limit: None,
    };
    let plan = ctx.plan(&AstStatement::Select(Box::new(stmt)), &s("main")).unwrap();

    // output schema: [status: VARCHAR, sum(amount): DECIMAL(10,2) nullable]
    assert_eq!(plan.schema.cols.len(), 2);
    assert_eq!(plan.schema.cols[0].name, "status");
    assert_eq!(plan.schema.cols[0].ty.kind, TyKind::Varchar);
    assert_eq!(plan.schema.cols[1].name, "sum(amount)");
    assert_eq!(plan.schema.cols[1].ty.kind, TyKind::Decimal(10, 2));
    assert!(plan.schema.cols[1].ty.nullable);

    // shape: Project over Aggregate over Filter (the filter sits below the
    // projection) over Scan
    let agg = match &plan.op {
        PlanOp::Project(_, _, input) => input,
        other => panic!("expected projection on top, got {:?}", other),
    };
    let (group, aggs, filter) = match &agg.op {
        PlanOp::Aggregate(g, a, _, input) => (g, a, input),
        other => panic!("expected aggregate, got {:?}", other),
    };
    assert_eq!(group.len(), 1);
    match &group[0] {
        Expr::ColumnRef(i, t) => {
            assert_eq!(*i, 2);
            assert_eq!(t.kind, TyKind::Varchar);
        },
        other => panic!("expected group key column, got {:?}", other),
    }
    assert_eq!(aggs.len(), 1);
    match &aggs[0] {
        Expr::Call(c) => {
            assert_eq!(c.name, "sum");
            assert_eq!(c.ty.kind, TyKind::Decimal(10, 2));
            assert!(c.ty.nullable);
        },
        other => panic!("expected aggregate call, got {:?}", other),
    }
    let scan = match &filter.op {
        PlanOp::Filter(_, input) => input,
        other => panic!("expected filter below aggregate, got {:?}", other),
    };
    assert!(matches!(scan.op, PlanOp::Scan(_)));
}

#[test]
fn projection_schema_matches_expression_types() {
    let ctx = orders_context();
    let stmt = select_stmt(
        vec![
            (AstExpr::Col(s("id")), s("id")),
            (AstExpr::Col(s("amount")), s("amount")),
        ],
        TableRef::Named(s("main"), s("orders")),
    );
    let plan = ctx.plan(&AstStatement::Select(Box::new(stmt)), &s("main")).unwrap();
    match &plan.op {
        PlanOp::Project(exprs, _, _) => {
            assert_eq!(exprs.len(), plan.schema.cols.len());
            for (i, e) in exprs.iter().enumerate() {
                let resolved = match e {
                    Expr::ColumnRef(_, t) => t,
                    other => panic!("expected column reference, got {:?}", other),
                };
                assert_eq!(&plan.schema.cols[i].ty, resolved);
            }
        },
        other => panic!("expected projection, got {:?}", other),
    }
}

#[test]
fn ambiguous_column_across_join_inputs_is_rejected() {
    let mut ctx = PlanContext::new();
    ctx.register_schema(s("main")).unwrap();
    let t1 = Table {
        name: s("t1"),
        schema: Schema { cols: vec![col("a", TyKind::Int32), col("x", TyKind::Int32)] },
        stats: None,
    };
    let t2 = Table {
        name: s("t2"),
        schema: Schema { cols: vec![col("a", TyKind::Int32), col("y", TyKind::Int32)] },
        stats: None,
    };
    ctx.register_table(&s("main"), t1).unwrap();
    ctx.register_table(&s("main"), t2).unwrap();
    let stmt = select_stmt(
        vec![(AstExpr::Col(s("a")), s("a"))],
        TableRef::JoinRef(
            dask_planner::plan::JoinKind::Inner,
            Box::new(AstExpr::Binary(
                BinOp::Eq,
                Box::new(AstExpr::Col(s("x"))),
                Box::new(AstExpr::Col(s("y"))),
            )),
            Box::new(TableRef::Named(s("main"), s("t1"))),
            Box::new(TableRef::Named(s("main"), s("t2"))),
        ),
    );
    let err = ctx.plan(&AstStatement::Select(Box::new(stmt)), &s("main")).unwrap_err();
    assert_eq!(err.kind(), ErrorKind::UnknownColumn);
}

fn two_table_context(left_stats: Option<Statistics>, right_stats: Option<Statistics>) -> PlanContext {
    let mut ctx = PlanContext::new();
    ctx.register_schema(s("main")).unwrap();
    let big = Table {
        name: s("big"),
        schema: Schema { cols: vec![col("a", TyKind::Int32), col("x", TyKind::Int32)] },
        stats: left_stats,
    };
    let small = Table {
        name: s("small"),
        schema: Schema { cols: vec![col("b", TyKind::Int32), col("y", TyKind::Int32)] },
        stats: right_stats,
    };
    ctx.register_table(&s("main"), big).unwrap();
    ctx.register_table(&s("main"), small).unwrap();
    ctx
}

fn stats(rows: u64) -> Statistics {
    Statistics {
        row_count: rows,
        col_stats: vec![
            ColumnStat { distinct_count: rows, null_permille: 0, min_value: None, max_value: None },
            ColumnStat { distinct_count: rows, null_permille: 0, min_value: None, max_value: None },
        ],
    }
}

fn join_stmt() -> SelectStmt {
    SelectStmt {
        projections: vec![(AstExpr::Col(s("a")), s("a")), (AstExpr::Col(s("b")), s("b"))],
        from: TableRef::JoinRef(
            dask_planner::plan::JoinKind::Inner,
            Box::new(AstExpr::Binary(
                BinOp::Eq,
                Box::new(AstExpr::Col(s("x"))),
                Box::new(AstExpr::Col(s("y"))),
            )),
            Box::new(TableRef::Named(s("main"), s("big"))),
            Box::new(TableRef::Named(s("main"), s("small"))),
        ),
        selection: Some(AstExpr::Binary(
            BinOp::Gt,
            Box::new(AstExpr::Col(s("a"))),
            Box::new(AstExpr::IntLit(1)),
        )),
        group_by: vec![],
        order_by: vec![],
        limit: None,
    }
}

/// Scans a plan for a Filter directly above a Join.
fn has_filter_above_join(p: &PlanNode) -> bool {
    let local = match &p.op {
        PlanOp::Filter(_, input) => matches!(input.op, PlanOp::Join(_, _, _, _)),
        _ => false,
    };
    local || children(p).iter().any(|c| has_filter_above_join(c))
}

fn children(p: &PlanNode) -> Vec<&PlanNode> {
    match &p.op {
        PlanOp::Scan(_) => vec![],
        PlanOp::Filter(_, i) => vec![i],
        PlanOp::Project(_, _, i) => vec![i],
        PlanOp::Aggregate(_, _, _, i) => vec![i],
        PlanOp::Join(_, _, l, r) => vec![l, r],
        PlanOp::Sort(_, i) => vec![i],
        PlanOp::Limit(_, i) => vec![i],
        PlanOp::Union(l, r) => vec![l, r],
        PlanOp::Window(_, _, i) => vec![i],
    }
}

#[test]
fn pushdown_preserves_output_schema_and_moves_filter_below_join() {
    let ctx = two_table_context(None, None);
    let stmt = AstStatement::Select(Box::new(join_stmt()));
    let unoptimized =
        dask_planner::plan::build_plan(&stmt, &ctx.catalog, &s("main")).unwrap();
    let before = unoptimized.schema.cols.len();
    let names: Vec<String> =
        unoptimized.schema.cols.iter().map(|c| c.name.clone()).collect();
    assert!(has_filter_above_join(&unoptimized));

    let (optimized, converged) = dask_planner::optimizer::optimize(unoptimized);
    assert!(converged);
    assert!(!has_filter_above_join(&optimized));
    // identical output schema, column by column
    assert_eq!(optimized.schema.cols.len(), before);
    for (i, c) in optimized.schema.cols.iter().enumerate() {
        assert_eq!(c.name, names[i]);
    }
    // the predicate `a > 1` ends up on the left input of the join
    fn join_of(p: &PlanNode) -> Option<&PlanNode> {
        if matches!(p.op, PlanOp::Join(_, _, _, _)) {
            return Some(p);
        }
        for c in children(p) {
            if let Some(j) = join_of(c) {
                return Some(j);
            }
        }
        None
    }
    let join = join_of(&optimized).expect("join survives");
    match &join.op {
        PlanOp::Join(_, _, l, _) => {
            assert!(matches!(l.op, PlanOp::Filter(_, _)));
        },
        _ => unreachable!(),
    }
}

#[test]
fn optimizing_twice_yields_structurally_identical_plan() {
    let ctx = two_table_context(None, None);
    let stmt = AstStatement::Select(Box::new(join_stmt()));
    let built_a = dask_planner::plan::build_plan(&stmt, &ctx.catalog, &s("main")).unwrap();
    let built_b = dask_planner::plan::build_plan(&stmt, &ctx.catalog, &s("main")).unwrap();
    assert_eq!(built_a, built_b);
    let (once, c1) = dask_planner::optimizer::optimize(built_a);
    assert!(c1);
    let (base, _) = dask_planner::optimizer::optimize(built_b);
    let (twice, c2) = dask_planner::optimizer::optimize(base);
    assert!(c2);
    assert_eq!(once, twice);
}

#[test]
fn join_reordering_without_statistics_preserves_order_exactly() {
    let ctx = two_table_context(None, Some(stats(10)));
    let stmt = AstStatement::Select(Box::new(join_stmt()));
    let plan = ctx.plan(&stmt, &s("main")).unwrap();
    fn join_children_names(p: &PlanNode) -> Option<(String, String)> {
        if let PlanOp::Join(_, _, l, r) = &p.op {
            fn scan_name(p: &PlanNode) -> String {
                match &p.op {
                    PlanOp::Scan(t) => t.name.clone(),
                    _ => children(p)
                        .first()
                        .map(|c| scan_name(c))
                        .unwrap_or_else(|| s("?")),
                }
            }
            return Some((scan_name(l), scan_name(r)));
        }
        for c in children(p) {
            if let Some(x) = join_children_names(c) {
                return Some(x);
            }
        }
        None
    }
    // statistics absent on one input: original order preserved exactly
    let (l, r) = join_children_names(&plan).unwrap();
    assert_eq!(l, "big");
    assert_eq!(r, "small");
}

#[test]
fn join_reordering_with_statistics_puts_smaller_input_first() {
    let ctx = two_table_context(Some(stats(1000)), Some(stats(10)));
    let stmt = AstStatement::Select(Box::new(join_stmt()));
    let before = dask_planner::plan::build_plan(&stmt, &ctx.catalog, &s("main")).unwrap();
    let names: Vec<String> = before.schema.cols.iter().map(|c| c.name.clone()).collect();
    let plan = ctx.plan(&stmt, &s("main")).unwrap();
    // output schema restored to the original column order
    for (i, c) in plan.schema.cols.iter().enumerate() {
        assert_eq!(c.name, names[i]);
    }
    fn find_join(p: &PlanNode) -> Option<&PlanNode> {
        if matches!(p.op, PlanOp::Join(_, _, _, _)) {
            return Some(p);
        }
        for c in children(p) {
            if let Some(j) = find_join(c) {
                return Some(j);
            }
        }
        None
    }
    let join = find_join(&plan).unwrap();
    match &join.op {
        PlanOp::Join(_, _, l, _) => {
            fn leftmost_scan(p: &PlanNode) -> Option<&str> {
                match &p.op {
                    PlanOp::Scan(t) => Some(t.name.as_str()),
                    _ => children(p).first().and_then(|c| leftmost_scan(c)),
                }
            }
            assert_eq!(leftmost_scan(l), Some("small"));
        },
        _ => unreachable!(),
    }
}

#[test]
fn pruning_drops_unreferenced_trailing_column_but_keeps_referenced_ones() {
    let ctx = orders_context();
    // derived table projects (status, amount, id); the aggregate above only
    // references status and amount, so the trailing id column is pruned
    let inner = select_stmt(
        vec![
            (AstExpr::Col(s("status")), s("status")),
            (AstExpr::Col(s("amount")), s("amount")),
            (AstExpr::Col(s("id")), s("id")),
        ],
        TableRef::Named(s("main"), s("orders")),
    );
    let outer = SelectStmt {
        projections: vec![
            (AstExpr::Col(s("status")), s("status")),
            (
                AstExpr::Call(s("sum"), vec![AstExpr::Col(s("amount"))]),
                s("total"),
            ),
        ],
        from: TableRef::Subquery(Box::new(inner)),
        selection: None,
        group_by: vec![AstExpr::Col(s("status"))],
        order_by: vec![],
        limit: None,
    };
    let plan = ctx.plan(&AstStatement::Select(Box::new(outer)), &s("main")).unwrap();
    fn find_aggregate(p: &PlanNode) -> Option<&PlanNode> {
        if matches!(p.op, PlanOp::Aggregate(_, _, _, _)) {
            return Some(p);
        }
        for c in children(p) {
            if let Some(a) = find_aggregate(c) {
                return Some(a);
            }
        }
        None
    }
    let agg = find_aggregate(&plan).unwrap();
    match &agg.op {
        PlanOp::Aggregate(group, aggs, _, input) => {
            match &input.op {
                PlanOp::Project(pexprs, pnames, _) => {
                    assert_eq!(pexprs.len(), 2);
                    assert_eq!(pnames[0], "status");
                    assert_eq!(pnames[1], "amount");
                },
                other => panic!("expected projection under aggregate, got {:?}", other),
            }
            // the referenced columns survive: group key and aggregate input
            // still resolve inside the narrowed projection
            assert_eq!(group.len(), 1);
            assert!(matches!(group[0], Expr::ColumnRef(0, _)));
            assert_eq!(aggs.len(), 1);
        },
        _ => unreachable!(),
    }
    assert_eq!(plan.schema.cols[0].name, "status");
    assert_eq!(plan.schema.cols[1].name, "total");
}

#[test]
fn duplicate_output_column_names_are_permitted_positionally() {
    let ctx = orders_context();
    let stmt = select_stmt(
        vec![
            (AstExpr::Col(s("id")), s("x")),
            (AstExpr::Col(s("amount")), s("x")),
        ],
        TableRef::Named(s("main"), s("orders")),
    );
    let plan = ctx.plan(&AstStatement::Select(Box::new(stmt)), &s("main")).unwrap();
    assert_eq!(plan.schema.cols.len(), 2);
    assert_eq!(plan.schema.cols[0].name, "x");
    assert_eq!(plan.schema.cols[1].name, "x");
    assert_eq!(plan.schema.cols[0].ty.kind, TyKind::Int32);
    assert_eq!(plan.schema.cols[1].ty.kind, TyKind::Decimal(10, 2));
    // name lookup on such a schema reports the ambiguity rather than
    // picking a side
    assert_eq!(
        plan.schema.lookup(&s("x")),
        dask_planner::schema::ColLookup::Ambiguous
    );
}

#[test]
fn plan_converged_reports_the_fixed_point() {
    let ctx = two_table_context(None, None);
    let stmt = AstStatement::Select(Box::new(join_stmt()));
    let (plan, converged) = ctx.plan_converged(&stmt, &s("main")).unwrap();
    assert!(converged);
    assert!(!has_filter_above_join(&plan));
}

#[test]
fn duplicate_table_registration_is_rejected() {
    let mut ctx = orders_context();
    let dup = Table {
        name: s("orders"),
        schema: Schema { cols: vec![col("id", TyKind::Int32)] },
        stats: None,
    };
    let err = ctx.register_table(&s("main"), dup).unwrap_err();
    assert_eq!(err.kind(), ErrorKind::DuplicateName);
}

#[test]
fn duplicate_schema_registration_is_rejected() {
    let mut ctx = orders_context();
    let err = ctx.register_schema(s("main")).unwrap_err();
    assert_eq!(err.kind(), ErrorKind::DuplicateName);
}

#[test]
fn unknown_table_is_rejected() {
    let ctx = orders_context();
    let stmt = select_stmt(
        vec![(AstExpr::Col(s("id")), s("id"))],
        TableRef::Named(s("main"), s("missing")),
    );
    let err = ctx.plan(&AstStatement::Select(Box::new(stmt)), &s("main")).unwrap_err();
    assert_eq!(err.kind(), ErrorKind::UnknownTable);
}

#[test]
fn non_boolean_predicate_is_rejected() {
    let ctx = orders_context();
    let mut stmt = select_stmt(
        vec![(AstExpr::Col(s("id")), s("id"))],
        TableRef::Named(s("main"), s("orders")),
    );
    stmt.selection = Some(AstExpr::IntLit(1));
    let err = ctx.plan(&AstStatement::Select(Box::new(stmt)), &s("main")).unwrap_err();
    assert_eq!(err.kind(), ErrorKind::TypeMismatch);
}

#[test]
fn ungrouped_unaggregated_projection_is_rejected() {
    let ctx = orders_context();
    let stmt = SelectStmt {
        projections: vec![(AstExpr::Col(s("amount")), s("amount"))],
        from: TableRef::Named(s("main"), s("orders")),
        selection: None,
        group_by: vec![AstExpr::Col(s("status"))],
        order_by: vec![],
        limit: None,
    };
    let err = ctx.plan(&AstStatement::Select(Box::new(stmt)), &s("main")).unwrap_err();
    assert_eq!(err.kind(), ErrorKind::GroupByMismatch);
}

#[test]
fn union_of_incompatible_schemas_is_rejected() {
    let ctx = orders_context();
    let a = select_stmt(
        vec![(AstExpr::Col(s("id")), s("id"))],
        TableRef::Named(s("main"), s("orders")),
    );
    let b = select_stmt(
        vec![(AstExpr::Col(s("status")), s("status"))],
        TableRef::Named(s("main"), s("orders")),
    );
    let stmt = AstStatement::UnionStmt(
        Box::new(AstStatement::Select(Box::new(a))),
        Box::new(AstStatement::Select(Box::new(b))),
    );
    let err = ctx.plan(&stmt, &s("main")).unwrap_err();
    assert_eq!(err.kind(), ErrorKind::SchemaIncompatible);
}

#[test]
fn union_of_compatible_schemas_takes_common_types() {
    let ctx = orders_context();
    let a = select_stmt(
        vec![(AstExpr::Col(s("id")), s("v"))],
        TableRef::Named(s("main"), s("orders")),
    );
    let b = select_stmt(
        vec![(AstExpr::Col(s("amount")), s("v"))],
        TableRef::Named(s("main"), s("orders")),
    );
    let stmt = AstStatement::UnionStmt(
        Box::new(AstStatement::Select(Box::new(a))),
        Box::new(AstStatement::Select(Box::new(b))),
    );
    let plan = ctx.plan(&stmt, &s("main")).unwrap();
    assert_eq!(plan.schema.cols.len(), 1);
    // INT and DECIMAL(10,2) widen to the decimal
    assert_eq!(plan.schema.cols[0].ty.kind, TyKind::Decimal(10, 2));
}
