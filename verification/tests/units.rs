use dask_planner::catalog::{Catalog, ColumnStat, FnKind, FunctionDef, ReturnRule, Statistics, Table};
use dask_planner::error::ErrorKind;
use dask_planner::expr::{build_expr, literal_assignable, AstExpr, BinOp, Expr, LitValue};
use dask_planner::optimizer::{est, fold_expr, optimize};
use dask_planner::plan::{PlanNode, PlanOp, SortKey};
use dask_planner::schema::{ColLookup, Column, Schema};
use dask_planner::types::{common_ty, is_assignable, resolve, Ty, TyKind, TypeExpr};

fn ty(kind: TyKind) -> Ty {
    Ty { kind, nullable: false }
}

fn nty(kind: TyKind) -> Ty {
    Ty { kind, nullable: true }
}

fn col(name: &str, kind: TyKind) -> Column {
    Column { name: name.to_string(), ty: ty(kind) }
}

fn s(x: &str) -> String {
    x.to_string()
}

#[test]
fn resolve_maps_sql_types_and_validates_decimal_parameters() {
    assert_eq!(resolve(&TypeExpr::SqlInt, false), Ok(ty(TyKind::Int32)));
    assert_eq!(resolve(&TypeExpr::SqlVarchar, true), Ok(nty(TyKind::Varchar)));
    assert_eq!(
        resolve(&TypeExpr::SqlDecimal(10, 2), false),
        Ok(ty(TyKind::Decimal(10, 2)))
    );
    assert_eq!(
        resolve(&TypeExpr::SqlArray(Box::new(TypeExpr::SqlBigInt)), false),
        Ok(ty(TyKind::Array(Box::new(nty(TyKind::Int64)))))
    );
    // scale above precision, or precision out of range, is a TypeMismatch
    assert_eq!(
        resolve(&TypeExpr::SqlDecimal(5, 6), false).unwrap_err().kind(),
        ErrorKind::TypeMismatch
    );
    assert_eq!(
        resolve(&TypeExpr::SqlDecimal(39, 0), false).unwrap_err().kind(),
        ErrorKind::TypeMismatch
    );
}

#[test]
fn numeric_widening_follows_the_fixed_order() {
    assert_eq!(
        common_ty(&ty(TyKind::Int32), &ty(TyKind::Int64)),
        Some(ty(TyKind::Int64))
    );
    assert_eq!(
        common_ty(&ty(TyKind::Int64), &ty(TyKind::Decimal(10, 2))),
        Some(ty(TyKind::Decimal(10, 2)))
    );
    assert_eq!(
        common_ty(&ty(TyKind::Decimal(10, 2)), &ty(TyKind::Float64)),
        Some(ty(TyKind::Float64))
    );
}

#[test]
fn decimal_merge_takes_widest_scale_and_integer_digits() {
    // DECIMAL(10,2) vs DECIMAL(12,4): scale 4, integer digits 8 -> DECIMAL(12,4)
    assert_eq!(
        common_ty(&ty(TyKind::Decimal(10, 2)), &ty(TyKind::Decimal(12, 4))),
        Some(ty(TyKind::Decimal(12, 4)))
    );
    // DECIMAL(10,8) vs DECIMAL(10,0): scale 8, integer digits 10 -> DECIMAL(18,8)
    assert_eq!(
        common_ty(&ty(TyKind::Decimal(10, 8)), &ty(TyKind::Decimal(10, 0))),
        Some(ty(TyKind::Decimal(18, 8)))
    );
}

#[test]
fn incomparable_composite_kinds_have_no_common_type() {
    let arr = ty(TyKind::Array(Box::new(ty(TyKind::Int32))));
    let row = ty(TyKind::Row(Box::new(dask_planner::types::FieldTypes::Last(ty(
        TyKind::Int32,
    )))));
    assert_eq!(common_ty(&arr, &row), None);
    assert_eq!(common_ty(&arr, &ty(TyKind::Varchar)), None);
    // unequal composite shapes admit no coercion, so no common type either:
    // the common type stays an upper bound under assignability
    let arr64 = ty(TyKind::Array(Box::new(ty(TyKind::Int64))));
    assert_eq!(common_ty(&arr, &arr64), None);
    let arr32b = ty(TyKind::Array(Box::new(ty(TyKind::Int32))));
    assert_eq!(common_ty(&arr, &arr32b), Some(ty(TyKind::Array(Box::new(ty(TyKind::Int32))))));
}

#[test]
fn common_type_is_an_upper_bound_under_assignability() {
    let cases = vec![
        (ty(TyKind::Int32), ty(TyKind::Int64)),
        (ty(TyKind::Int64), ty(TyKind::Decimal(10, 2))),
        (ty(TyKind::Decimal(10, 2)), ty(TyKind::Decimal(12, 4))),
        (nty(TyKind::NullType), ty(TyKind::Varchar)),
        (nty(TyKind::Int32), ty(TyKind::Float64)),
    ];
    for (a, b) in cases {
        let c = common_ty(&a, &b).unwrap();
        assert!(is_assignable(&a, &c));
        assert!(is_assignable(&b, &c));
        // and the argument order never matters
        assert_eq!(common_ty(&b, &a), Some(c));
    }
}

#[test]
fn nullability_propagates_and_null_literal_assigns_to_nullable() {
    let a = nty(TyKind::Int32);
    let b = ty(TyKind::Int64);
    assert_eq!(common_ty(&a, &b), Some(nty(TyKind::Int64)));
    let null_t = nty(TyKind::NullType);
    assert!(is_assignable(&null_t, &nty(TyKind::Varchar)));
    assert!(!is_assignable(&null_t, &ty(TyKind::Varchar)));
    // nullability is never lost by assignment
    assert!(!is_assignable(&nty(TyKind::Int32), &ty(TyKind::Int32)));
    assert!(is_assignable(&ty(TyKind::Int32), &nty(TyKind::Int32)));
}

fn overload_catalog() -> Catalog {
    let mut c = Catalog::new();
    c.register_schema(s("main")).unwrap();
    c.register_function(
        &s("main"),
        FunctionDef {
            name: s("f"),
            params: vec![ty(TyKind::Int64)],
            ret: ReturnRule::Fixed(ty(TyKind::Int64)),
            kind: FnKind::Scalar,
        },
    )
    .unwrap();
    c.register_function(
        &s("main"),
        FunctionDef {
            name: s("f"),
            params: vec![ty(TyKind::Decimal(18, 1))],
            ret: ReturnRule::Fixed(ty(TyKind::Decimal(18, 1))),
            kind: FnKind::Scalar,
        },
    )
    .unwrap();
    c
}

#[test]
fn decimal_literal_resolves_to_decimal_overload_with_zero_coercions() {
    let c = overload_catalog();
    let schema = Schema { cols: vec![] };
    // f(3.5): the decimal literal 3.5 is DECIMAL(18,1); the DECIMAL overload
    // matches exactly (cost zero), the INT overload does not admit it at all
    let e = build_expr(
        &AstExpr::Call(s("f"), vec![AstExpr::DecLit(35, 1)]),
        &schema,
        &c,
        &s("main"),
    )
    .unwrap();
    match e {
        Expr::Call(call) => {
            assert_eq!(call.ty.kind, TyKind::Decimal(18, 1));
        },
        other => panic!("expected call, got {:?}", other),
    }
}

#[test]
fn integer_literal_resolves_to_integer_overload() {
    let c = overload_catalog();
    let schema = Schema { cols: vec![] };
    let e = build_expr(
        &AstExpr::Call(s("f"), vec![AstExpr::IntLit(3)]),
        &schema,
        &c,
        &s("main"),
    )
    .unwrap();
    match e {
        Expr::Call(call) => assert_eq!(call.ty.kind, TyKind::Int64),
        other => panic!("expected call, got {:?}", other),
    }
}

#[test]
fn tied_overloads_are_a_hard_error() {
    let mut c = overload_catalog();
    // a second identical INT overload ties with the first
    c.register_function(
        &s("main"),
        FunctionDef {
            name: s("f"),
            params: vec![ty(TyKind::Int64)],
            ret: ReturnRule::Fixed(ty(TyKind::Int64)),
            kind: FnKind::Scalar,
        },
    )
    .unwrap();
    let schema = Schema { cols: vec![] };
    let err = build_expr(
        &AstExpr::Call(s("f"), vec![AstExpr::IntLit(3)]),
        &schema,
        &c,
        &s("main"),
    )
    .unwrap_err();
    assert_eq!(err.kind(), ErrorKind::AmbiguousFunction);
}

#[test]
fn unknown_function_is_rejected() {
    let c = overload_catalog();
    let schema = Schema { cols: vec![] };
    let err = build_expr(
        &AstExpr::Call(s("g"), vec![AstExpr::IntLit(3)]),
        &schema,
        &c,
        &s("main"),
    )
    .unwrap_err();
    assert_eq!(err.kind(), ErrorKind::UnknownFunction);
}

#[test]
fn decimal_literal_scale_out_of_range_is_rejected() {
    let c = Catalog::new();
    let schema = Schema { cols: vec![] };
    // scale zero is a whole-number decimal and fine
    let e = build_expr(&AstExpr::DecLit(1, 0), &schema, &c, &s("main")).unwrap();
    assert_eq!(e.ty().kind, TyKind::Decimal(18, 0));
    // a scale beyond the 64-bit unscaled value's digits is rejected
    let err = build_expr(&AstExpr::DecLit(1, 19), &schema, &c, &s("main")).unwrap_err();
    assert_eq!(err.kind(), ErrorKind::TypeMismatch);
}

#[test]
fn schema_lookup_reports_unique_missing_and_ambiguous() {
    let sch = Schema {
        cols: vec![col("a", TyKind::Int32), col("b", TyKind::Int32), col("a", TyKind::Varchar)],
    };
    assert_eq!(sch.lookup(&s("b")), ColLookup::Unique(1));
    assert_eq!(sch.lookup(&s("c")), ColLookup::Missing);
    assert_eq!(sch.lookup(&s("a")), ColLookup::Ambiguous);
}

#[test]
fn all_literal_subtrees_fold_to_a_single_literal() {
    let c = Catalog::new();
    let schema = Schema { cols: vec![] };
    // 1 + 2 * 3
    let e = build_expr(
        &AstExpr::Binary(
            BinOp::Add,
            Box::new(AstExpr::IntLit(1)),
            Box::new(AstExpr::Binary(
                BinOp::Mul,
                Box::new(AstExpr::IntLit(2)),
                Box::new(AstExpr::IntLit(3)),
            )),
        ),
        &schema,
        &c,
        &s("main"),
    )
    .unwrap();
    let (folded, changed) = fold_expr(e);
    assert!(changed);
    match folded {
        Expr::Literal(LitValue::Int(v), t) => {
            assert_eq!(v, 7);
            assert_eq!(t.kind, TyKind::Int64);
        },
        other => panic!("expected folded literal, got {:?}", other),
    }
}

#[test]
fn overflowing_fold_is_skipped() {
    let c = Catalog::new();
    let schema = Schema { cols: vec![] };
    let e = build_expr(
        &AstExpr::Binary(
            BinOp::Add,
            Box::new(AstExpr::IntLit(i64::MAX)),
            Box::new(AstExpr::IntLit(1)),
        ),
        &schema,
        &c,
        &s("main"),
    )
    .unwrap();
    let (folded, changed) = fold_expr(e);
    assert!(!changed);
    assert!(matches!(folded, Expr::Binary(_, _, _, _)));
}

fn scan_node() -> PlanNode {
    let schema = Schema { cols: vec![col("k", TyKind::Int32), col("v", TyKind::Int64)] };
    let tschema = Schema { cols: vec![col("k", TyKind::Int32), col("v", TyKind::Int64)] };
    PlanNode {
        op: PlanOp::Scan(Table { name: s("t"), schema: tschema, stats: None }),
        schema,
    }
}

#[test]
fn redundant_sort_above_finer_sort_is_dropped() {
    let inner = PlanNode {
        schema: Schema { cols: vec![col("k", TyKind::Int32), col("v", TyKind::Int64)] },
        op: PlanOp::Sort(
            vec![
                SortKey { expr: Expr::ColumnRef(0, ty(TyKind::Int32)), asc: true },
                SortKey { expr: Expr::ColumnRef(1, ty(TyKind::Int64)), asc: false },
            ],
            Box::new(scan_node()),
        ),
    };
    let outer = PlanNode {
        schema: Schema { cols: vec![col("k", TyKind::Int32), col("v", TyKind::Int64)] },
        op: PlanOp::Sort(
            vec![SortKey { expr: Expr::ColumnRef(0, ty(TyKind::Int32)), asc: true }],
            Box::new(inner),
        ),
    };
    let (optimized, converged) = optimize(outer);
    assert!(converged);
    // the outer sort is gone: the remaining top node is the finer sort
    match &optimized.op {
        PlanOp::Sort(keys, input) => {
            assert_eq!(keys.len(), 2);
            assert!(matches!(input.op, PlanOp::Scan(_)));
        },
        other => panic!("expected the finer sort on top, got {:?}", other),
    }
}

#[test]
fn sort_with_different_direction_is_not_dropped() {
    let inner = PlanNode {
        schema: Schema { cols: vec![col("k", TyKind::Int32), col("v", TyKind::Int64)] },
        op: PlanOp::Sort(
            vec![SortKey { expr: Expr::ColumnRef(0, ty(TyKind::Int32)), asc: false }],
            Box::new(scan_node()),
        ),
    };
    let outer = PlanNode {
        schema: Schema { cols: vec![col("k", TyKind::Int32), col("v", TyKind::Int64)] },
        op: PlanOp::Sort(
            vec![SortKey { expr: Expr::ColumnRef(0, ty(TyKind::Int32)), asc: true }],
            Box::new(inner),
        ),
    };
    let (optimized, _) = optimize(outer);
    match &optimized.op {
        PlanOp::Sort(keys, input) => {
            assert_eq!(keys.len(), 1);
            assert!(matches!(input.op, PlanOp::Sort(_, _)));
        },
        other => panic!("expected both sorts kept, got {:?}", other),
    }
}

#[test]
fn string_literals_coerce_to_parseable_targets_only() {
    let lit = LitValue::Str(s("42"));
    assert!(literal_assignable(&lit, &ty(TyKind::Int64)));
    assert!(literal_assignable(&lit, &ty(TyKind::Date)));
    assert!(literal_assignable(&lit, &ty(TyKind::Boolean)));
    assert!(!literal_assignable(&lit, &ty(TyKind::Binary)));
    assert!(!literal_assignable(
        &lit,
        &ty(TyKind::Array(Box::new(ty(TyKind::Int32))))
    ));
    // the NULL literal goes to any nullable type and no required one
    assert!(literal_assignable(&LitValue::Null, &nty(TyKind::Varchar)));
    assert!(!literal_assignable(&LitValue::Null, &ty(TyKind::Varchar)));
}

#[test]
fn string_literal_coerces_in_comparisons() {
    let c = Catalog::new();
    let schema = Schema { cols: vec![col("amount", TyKind::Decimal(10, 2))] };
    let e = build_expr(
        &AstExpr::Binary(
            BinOp::Gt,
            Box::new(AstExpr::Col(s("amount"))),
            Box::new(AstExpr::StrLit(s("5"))),
        ),
        &schema,
        &c,
        &s("main"),
    )
    .unwrap();
    assert_eq!(e.ty().kind, TyKind::Boolean);
    // the literal adopted the column's decimal kind
    match e {
        Expr::Binary(_, _, rhs, _) => match *rhs {
            Expr::Literal(LitValue::Str(_), t) => assert_eq!(t.kind, TyKind::Decimal(10, 2)),
            other => panic!("expected retyped literal, got {:?}", other),
        },
        other => panic!("expected comparison, got {:?}", other),
    }
    // a target without a parse rule stays a mismatch
    let schema2 = Schema { cols: vec![col("b", TyKind::Binary)] };
    let err = build_expr(
        &AstExpr::Binary(
            BinOp::Eq,
            Box::new(AstExpr::Col(s("b"))),
            Box::new(AstExpr::StrLit(s("x"))),
        ),
        &schema2,
        &c,
        &s("main"),
    )
    .unwrap_err();
    assert_eq!(err.kind(), ErrorKind::TypeMismatch);
}

#[test]
fn type_constructors_set_nullability() {
    let a = Ty::required(TyKind::Int32);
    assert!(!a.nullable);
    let b = Ty::nullable(TyKind::Int32);
    assert!(b.nullable);
}

#[test]
fn window_call_appends_a_column_and_validates_order_keys() {
    let mut c = Catalog::new();
    c.register_schema(s("main")).unwrap();
    c.register_function(
        &s("main"),
        FunctionDef {
            name: s("row_number"),
            params: vec![],
            ret: ReturnRule::Fixed(ty(TyKind::Int64)),
            kind: FnKind::Window,
        },
    )
    .unwrap();
    let input = scan_node();
    let calls = vec![AstExpr::Window(
        s("row_number"),
        vec![],
        vec![AstExpr::Col(s("k"))],
        vec![AstExpr::Col(s("v"))],
    )];
    let names = vec![s("rn")];
    let node =
        dask_planner::plan::build_window(input, &calls, &names, &c, &s("main")).unwrap();
    assert_eq!(node.schema.cols.len(), 3);
    assert_eq!(node.schema.cols[2].name, "rn");
    assert_eq!(node.schema.cols[2].ty.kind, TyKind::Int64);

    // a window call without any partition or order specification is invalid
    let bad = vec![AstExpr::Window(s("row_number"), vec![], vec![], vec![])];
    let err = dask_planner::plan::build_window(scan_node(), &bad, &names, &c, &s("main"))
        .unwrap_err();
    assert_eq!(err.kind(), ErrorKind::TypeMismatch);
}

#[test]
fn cardinality_estimate_uses_distinct_counts_on_join_keys() {
    fn scan_with(rows: u64, distinct: u64, name: &str) -> PlanNode {
        let mk = |n: &str| Schema { cols: vec![col(n, TyKind::Int32)] };
        PlanNode {
            schema: mk(name),
            op: PlanOp::Scan(Table {
                name: name.to_string(),
                schema: mk(name),
                stats: Some(Statistics {
                    row_count: rows,
                    col_stats: vec![ColumnStat {
                        distinct_count: distinct,
                        null_permille: 0,
                        min_value: None,
                        max_value: None,
                    }],
                }),
            }),
        }
    }
    let l = scan_with(1000, 50, "l");
    let r = scan_with(100, 100, "r");
    let cond = Expr::Binary(
        BinOp::Eq,
        Box::new(Expr::ColumnRef(0, ty(TyKind::Int32))),
        Box::new(Expr::ColumnRef(1, ty(TyKind::Int32))),
        ty(TyKind::Boolean),
    );
    let join = PlanNode {
        schema: Schema { cols: vec![col("l", TyKind::Int32), col("r", TyKind::Int32)] },
        op: PlanOp::Join(
            dask_planner::plan::JoinKind::Inner,
            cond,
            Box::new(l),
            Box::new(r),
        ),
    };
    // 1000 * 100 / max(50, 100) = 1000
    assert_eq!(est(&join), Some(1000));
}
