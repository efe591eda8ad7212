//! The internal relational type representation, and the compatibility,
//! coercion and promotion rules between types.
//!
//! SQL-level types map onto [`Ty`]: a tagged kind plus a nullability flag.
//! Numeric widening follows a fixed total order (integer widths, then
//! decimal, then floating); composite kinds (arrays, row types) are
//! compatible only shape-by-shape. Floating-point columns are represented by
//! a tag only: the planner never holds a floating-point value itself.
//!
//! Row types (`struct<...>`) are positional here: a row type carries the
//! ordered field types, not field names.

use vstd::prelude::*;

verus! {

/// Greatest decimal precision the type system accepts.
pub const MAX_DECIMAL_PRECISION: u32 = 38;

/// The tagged kind of a type, without nullability.
#[derive(Debug, PartialEq, Eq)]
pub enum TyKind {
    Boolean,
    /// 32-bit signed integer.
    Int32,
    /// 64-bit signed integer.
    Int64,
    /// Fixed-point decimal: precision (total digits) and scale (digits after
    /// the point).
    Decimal(u32, u32),
    /// 64-bit floating point. A tag only: no floating-point value ever
    /// enters the planner.
    Float64,
    Varchar,
    Binary,
    Date,
    Timestamp,
    /// Array of a single element type.
    Array(Box<Ty>),
    /// Row (struct) type over ordered, positional field types.
    Row(Box<FieldTypes>),
    /// The type of the bare NULL literal before any context types it: it is
    /// assignable to every nullable type.
    NullType,
}

/// Non-empty ordered list of field types of a row type.
#[derive(Debug, PartialEq, Eq)]
pub enum FieldTypes {
    Last(Ty),
    More(Ty, Box<FieldTypes>),
}

/// A resolved relational type: a kind plus nullability.
#[derive(Debug, PartialEq, Eq)]
pub struct Ty {
    pub kind: TyKind,
    pub nullable: bool,
}

/// Well-formedness of a kind: every decimal in it has
/// `1 <= precision <= MAX_DECIMAL_PRECISION` and `scale <= precision`.
pub open spec fn kind_wf(k: TyKind) -> bool
    decreases k,
{
    match k {
        TyKind::Decimal(p, s) => 1 <= p <= MAX_DECIMAL_PRECISION && s <= p,
        TyKind::Array(elem) => ty_wf(*elem),
        TyKind::Row(fields) => fields_wf(*fields),
        _ => true,
    }
}

/// Well-formedness of a type: its kind is well-formed, and the NULL
/// literal's type is always nullable.
pub open spec fn ty_wf(t: Ty) -> bool
    decreases t,
{
    kind_wf(t.kind) && (t.kind == TyKind::NullType ==> t.nullable)
}

/// Well-formedness of every field type of a row type.
pub open spec fn fields_wf(fs: FieldTypes) -> bool
    decreases fs,
{
    match fs {
        FieldTypes::Last(t) => ty_wf(t),
        FieldTypes::More(t, rest) => ty_wf(t) && fields_wf(*rest),
    }
}

impl Ty {
    /// A non-nullable type of the given kind.
    pub fn required(kind: TyKind) -> (t: Ty)
        ensures
            t.kind == kind,
            !t.nullable,
    {
        Ty { kind, nullable: false }
    }

    /// A nullable type of the given kind.
    pub fn nullable(kind: TyKind) -> (t: Ty)
        ensures
            t.kind == kind,
            t.nullable,
    {
        Ty { kind, nullable: true }
    }
}

/// Structural equality test on kinds, sound and complete for `==`.
pub fn eq_kind(a: &TyKind, b: &TyKind) -> (r: bool)
    ensures
        r == (*a == *b),
    decreases *a,
{
    match (a, b) {
        (TyKind::Boolean, TyKind::Boolean) => true,
        (TyKind::Int32, TyKind::Int32) => true,
        (TyKind::Int64, TyKind::Int64) => true,
        (TyKind::Decimal(p1, s1), TyKind::Decimal(p2, s2)) => p1 == p2 && s1 == s2,
        (TyKind::Float64, TyKind::Float64) => true,
        (TyKind::Varchar, TyKind::Varchar) => true,
        (TyKind::Binary, TyKind::Binary) => true,
        (TyKind::Date, TyKind::Date) => true,
        (TyKind::Timestamp, TyKind::Timestamp) => true,
        (TyKind::Array(e1), TyKind::Array(e2)) => eq_ty(e1, e2),
        (TyKind::Row(f1), TyKind::Row(f2)) => eq_fields(f1, f2),
        (TyKind::NullType, TyKind::NullType) => true,
        _ => false,
    }
}

/// Structural equality test on types, sound and complete for `==`.
pub fn eq_ty(a: &Ty, b: &Ty) -> (r: bool)
    ensures
        r == (*a == *b),
    decreases *a,
{
    a.nullable == b.nullable && eq_kind(&a.kind, &b.kind)
}

/// Structural equality test on row field lists.
pub fn eq_fields(a: &FieldTypes, b: &FieldTypes) -> (r: bool)
    ensures
        r == (*a == *b),
    decreases *a,
{
    match (a, b) {
        (FieldTypes::Last(t1), FieldTypes::Last(t2)) => eq_ty(t1, t2),
        (FieldTypes::More(t1, r1), FieldTypes::More(t2, r2)) => eq_ty(t1, t2) && eq_fields(r1, r2),
        _ => false,
    }
}

/// A structurally equal copy of a kind.
pub fn dup_kind(k: &TyKind) -> (r: TyKind)
    ensures
        r == *k,
    decreases *k,
{
    match k {
        TyKind::Boolean => TyKind::Boolean,
        TyKind::Int32 => TyKind::Int32,
        TyKind::Int64 => TyKind::Int64,
        TyKind::Decimal(p, s) => TyKind::Decimal(*p, *s),
        TyKind::Float64 => TyKind::Float64,
        TyKind::Varchar => TyKind::Varchar,
        TyKind::Binary => TyKind::Binary,
        TyKind::Date => TyKind::Date,
        TyKind::Timestamp => TyKind::Timestamp,
        TyKind::Array(elem) => TyKind::Array(Box::new(dup_ty(elem))),
        TyKind::Row(fields) => TyKind::Row(Box::new(dup_fields(fields))),
        TyKind::NullType => TyKind::NullType,
    }
}

/// A structurally equal copy of a type.
pub fn dup_ty(t: &Ty) -> (r: Ty)
    ensures
        r == *t,
    decreases *t,
{
    Ty { kind: dup_kind(&t.kind), nullable: t.nullable }
}

/// A structurally equal copy of a row field list.
pub fn dup_fields(fs: &FieldTypes) -> (r: FieldTypes)
    ensures
        r == *fs,
    decreases *fs,
{
    match fs {
        FieldTypes::Last(t) => FieldTypes::Last(dup_ty(t)),
        FieldTypes::More(t, rest) => FieldTypes::More(dup_ty(t), Box::new(dup_fields(rest))),
    }
}

/// Whether a kind is numeric (participates in numeric widening).
pub open spec fn spec_is_numeric(k: TyKind) -> bool {
    match k {
        TyKind::Int32 | TyKind::Int64 | TyKind::Decimal(_, _) | TyKind::Float64 => true,
        _ => false,
    }
}

/// Rank of a numeric kind in the fixed widening order: integer widths below
/// decimal below floating. Zero for non-numeric kinds.
pub open spec fn spec_num_rank(k: TyKind) -> int {
    match k {
        TyKind::Int32 => 1,
        TyKind::Int64 => 2,
        TyKind::Decimal(_, _) => 3,
        TyKind::Float64 => 4,
        _ => 0,
    }
}

/// Whether a kind is numeric.
pub fn is_numeric(k: &TyKind) -> (r: bool)
    ensures
        r == spec_is_numeric(*k),
{
    match k {
        TyKind::Int32 | TyKind::Int64 | TyKind::Decimal(_, _) | TyKind::Float64 => true,
        _ => false,
    }
}

/// Rank of a kind in the numeric widening order.
pub fn num_rank(k: &TyKind) -> (r: u32)
    ensures
        r == spec_num_rank(*k),
{
    match k {
        TyKind::Int32 => 1,
        TyKind::Int64 => 2,
        TyKind::Decimal(_, _) => 3,
        TyKind::Float64 => 4,
        _ => 0,
    }
}

/// Whether a kind is orderable (usable as a sort or window order key).
pub open spec fn spec_is_orderable(k: TyKind) -> bool {
    match k {
        TyKind::Array(_) | TyKind::Row(_) | TyKind::Binary => false,
        _ => true,
    }
}

/// Whether a kind is orderable.
pub fn is_orderable(k: &TyKind) -> (r: bool)
    ensures
        r == spec_is_orderable(*k),
{
    match k {
        TyKind::Array(_) | TyKind::Row(_) | TyKind::Binary => false,
        _ => true,
    }
}

/// Whether a value of kind `from` implicitly coerces to kind `to`: equal
/// kinds always do, and numeric kinds widen along the fixed rank order.
pub open spec fn spec_kind_coercible(from: TyKind, to: TyKind) -> bool {
    from == to || (spec_is_numeric(from) && spec_is_numeric(to) && spec_num_rank(from)
        <= spec_num_rank(to))
}

/// Whether a value of type `from` is assignable to type `to`: the kinds must
/// coerce, nullability must not be lost, and the NULL literal is assignable
/// to every nullable type.
pub open spec fn spec_is_assignable(from: Ty, to: Ty) -> bool {
    if from.kind == TyKind::NullType {
        to.nullable
    } else {
        spec_kind_coercible(from.kind, to.kind) && (to.nullable || !from.nullable)
    }
}

/// Cost of assigning `from` to `to` under best-match overload resolution:
/// `None` when not assignable, `0` exactly when the types are identical, and
/// otherwise a positive cost that grows with the width of the coercion.
pub open spec fn spec_assign_cost(from: Ty, to: Ty) -> Option<int> {
    if from == to {
        Some(0int)
    } else if !spec_is_assignable(from, to) {
        None
    } else if from.kind == TyKind::NullType {
        Some(1int)
    } else if from.kind == to.kind {
        Some(1int)
    } else {
        Some(spec_num_rank(to.kind) - spec_num_rank(from.kind) + 1)
    }
}

/// Whether `from` is assignable to `to`.
pub fn is_assignable(from: &Ty, to: &Ty) -> (r: bool)
    ensures
        r == spec_is_assignable(*from, *to),
{
    if matches!(from.kind, TyKind::NullType) {
        to.nullable
    } else {
        let kinds_ok = if eq_kind(&from.kind, &to.kind) {
            true
        } else {
            is_numeric(&from.kind) && is_numeric(&to.kind) && num_rank(&from.kind) <= num_rank(
                &to.kind,
            )
        };
        kinds_ok && (to.nullable || !from.nullable)
    }
}

/// Cost of assigning `from` to `to`; `None` when not assignable.
pub fn assign_cost(from: &Ty, to: &Ty) -> (r: Option<u32>)
    ensures
        match r {
            Some(c) => spec_assign_cost(*from, *to) == Some(c as int),
            None => spec_assign_cost(*from, *to) is None,
        },
{
    if eq_ty(from, to) {
        Some(0)
    } else if !is_assignable(from, to) {
        None
    } else if matches!(from.kind, TyKind::NullType) {
        Some(1)
    } else if eq_kind(&from.kind, &to.kind) {
        Some(1)
    } else {
        Some(num_rank(&to.kind) - num_rank(&from.kind) + 1)
    }
}

/// The decimal kind that can hold values of both argument decimals: the
/// larger scale, the larger count of integer digits, and the precision
/// capped at [`MAX_DECIMAL_PRECISION`].
pub open spec fn spec_merge_decimal(p1: int, s1: int, p2: int, s2: int) -> TyKind {
    let s = if s1 >= s2 {
        s1
    } else {
        s2
    };
    let ip = if p1 - s1 >= p2 - s2 {
        p1 - s1
    } else {
        p2 - s2
    };
    let p = if ip + s <= MAX_DECIMAL_PRECISION {
        ip + s
    } else {
        MAX_DECIMAL_PRECISION as int
    };
    TyKind::Decimal(p as u32, s as u32)
}

/// Least upper bound of two kinds under implicit coercion; `None` when the
/// kinds are incomparable. Composite kinds (arrays, row types) admit no
/// coercion between unequal shapes, so their common kind exists only when
/// they are equal — this keeps the result an upper bound under
/// [`spec_kind_coercible`] (see [`lemma_common_ty_upper_bound`]).
pub open spec fn spec_common_kind(a: TyKind, b: TyKind) -> Option<TyKind> {
    if a == b {
        Some(a)
    } else {
        match (a, b) {
            (TyKind::NullType, _) => Some(b),
            (_, TyKind::NullType) => Some(a),
            (TyKind::Decimal(p1, s1), TyKind::Decimal(p2, s2)) => Some(
                spec_merge_decimal(p1 as int, s1 as int, p2 as int, s2 as int),
            ),
            _ => if spec_is_numeric(a) && spec_is_numeric(b) {
                if spec_num_rank(a) >= spec_num_rank(b) {
                    Some(a)
                } else {
                    Some(b)
                }
            } else {
                None
            },
        }
    }
}

/// Least upper bound of two types under implicit coercion. The result is
/// nullable when either input is; `None` when the kinds are incomparable.
pub open spec fn spec_common_ty(a: Ty, b: Ty) -> Option<Ty> {
    match spec_common_kind(a.kind, b.kind) {
        Some(k) => Some(Ty { kind: k, nullable: a.nullable || b.nullable }),
        None => None,
    }
}

/// Least upper bound of two kinds under implicit coercion.
pub fn common_kind(a: &TyKind, b: &TyKind) -> (r: Option<TyKind>)
    requires
        kind_wf(*a),
        kind_wf(*b),
    ensures
        r == spec_common_kind(*a, *b),
{
    if eq_kind(a, b) {
        Some(dup_kind(a))
    } else {
        match (a, b) {
            (TyKind::NullType, _) => Some(dup_kind(b)),
            (_, TyKind::NullType) => Some(dup_kind(a)),
            (TyKind::Decimal(p1, s1), TyKind::Decimal(p2, s2)) => {
                let s: u32 = if *s1 >= *s2 {
                    *s1
                } else {
                    *s2
                };
                let ip: u32 = if *p1 - *s1 >= *p2 - *s2 {
                    *p1 - *s1
                } else {
                    *p2 - *s2
                };
                let p: u32 = if ip + s <= MAX_DECIMAL_PRECISION {
                    ip + s
                } else {
                    MAX_DECIMAL_PRECISION
                };
                Some(TyKind::Decimal(p, s))
            },
            _ => if is_numeric(a) && is_numeric(b) {
                if num_rank(a) >= num_rank(b) {
                    Some(dup_kind(a))
                } else {
                    Some(dup_kind(b))
                }
            } else {
                None
            },
        }
    }
}

/// Least upper bound of two types under implicit coercion.
pub fn common_ty(a: &Ty, b: &Ty) -> (r: Option<Ty>)
    requires
        ty_wf(*a),
        ty_wf(*b),
    ensures
        r == spec_common_ty(*a, *b),
{
    match common_kind(&a.kind, &b.kind) {
        Some(k) => Some(Ty { kind: k, nullable: a.nullable || b.nullable }),
        None => None,
    }
}

/// The common type is an upper bound: both arguments are assignable to it
/// under the implicit coercion rules.
pub proof fn lemma_common_ty_upper_bound(a: Ty, b: Ty)
    requires
        ty_wf(a),
        ty_wf(b),
    ensures
        match spec_common_ty(a, b) {
            Some(c) => spec_is_assignable(a, c) && spec_is_assignable(b, c),
            None => true,
        },
{
}

/// The common type does not depend on the argument order.
pub proof fn lemma_common_ty_comm(a: Ty, b: Ty)
    ensures
        spec_common_ty(a, b) == spec_common_ty(b, a),
{
}

/// A SQL-level type expression, as the external catalog-population layer
/// hands it over: a type name with its parameters, nesting for composites.
#[derive(Debug, PartialEq, Eq)]
pub enum TypeExpr {
    SqlBoolean,
    /// INTEGER.
    SqlInt,
    /// BIGINT.
    SqlBigInt,
    /// DECIMAL(precision, scale).
    SqlDecimal(u32, u32),
    /// DOUBLE.
    SqlDouble,
    SqlVarchar,
    SqlBinary,
    SqlDate,
    SqlTimestamp,
    SqlArray(Box<TypeExpr>),
    SqlRow(Box<TypeFields>),
}

/// Non-empty ordered field list of a SQL row type expression.
#[derive(Debug, PartialEq, Eq)]
pub enum TypeFields {
    LastField(TypeExpr),
    MoreFields(TypeExpr, Box<TypeFields>),
}

/// The kind a type expression names, or `None` when a decimal parameter is
/// out of range.
pub open spec fn spec_resolve_kind(te: TypeExpr) -> Option<TyKind>
    decreases te,
{
    match te {
        TypeExpr::SqlBoolean => Some(TyKind::Boolean),
        TypeExpr::SqlInt => Some(TyKind::Int32),
        TypeExpr::SqlBigInt => Some(TyKind::Int64),
        TypeExpr::SqlDecimal(p, s) => if 1 <= p <= MAX_DECIMAL_PRECISION && s <= p {
            Some(TyKind::Decimal(p, s))
        } else {
            None
        },
        TypeExpr::SqlDouble => Some(TyKind::Float64),
        TypeExpr::SqlVarchar => Some(TyKind::Varchar),
        TypeExpr::SqlBinary => Some(TyKind::Binary),
        TypeExpr::SqlDate => Some(TyKind::Date),
        TypeExpr::SqlTimestamp => Some(TyKind::Timestamp),
        TypeExpr::SqlArray(e) => match spec_resolve_kind(*e) {
            Some(k) => Some(TyKind::Array(Box::new(Ty { kind: k, nullable: true }))),
            None => None,
        },
        TypeExpr::SqlRow(fs) => match spec_resolve_fields(*fs) {
            Some(f) => Some(TyKind::Row(Box::new(f))),
            None => None,
        },
    }
}

/// The field types a row type expression names.
pub open spec fn spec_resolve_fields(fs: TypeFields) -> Option<FieldTypes>
    decreases fs,
{
    match fs {
        TypeFields::LastField(te) => match spec_resolve_kind(te) {
            Some(k) => Some(FieldTypes::Last(Ty { kind: k, nullable: true })),
            None => None,
        },
        TypeFields::MoreFields(te, rest) => match (spec_resolve_kind(te), spec_resolve_fields(
            *rest,
        )) {
            (Some(k), Some(f)) => Some(
                FieldTypes::More(Ty { kind: k, nullable: true }, Box::new(f)),
            ),
            _ => None,
        },
    }
}

/// Map a SQL-level type expression to the internal representation, with the
/// given top-level nullability; array elements and row fields are nullable,
/// as SQL leaves them. A decimal precision outside
/// `1..=MAX_DECIMAL_PRECISION`, or a scale above the precision, is a
/// `TypeMismatch` error, exactly.
pub fn resolve(te: &TypeExpr, nullable: bool) -> (r: Result<Ty, crate::error::PlanError>)
    ensures
        match r {
            Ok(t) => spec_resolve_kind(*te) == Some(t.kind) && t.nullable == nullable && ty_wf(t),
            Err(e) => spec_resolve_kind(*te) is None && e.spec_kind()
                == crate::error::ErrorKind::TypeMismatch,
        },
{
    match resolve_kind(te) {
        Some(k) => {
            proof {
                lemma_resolve_kind_wf(*te);
            }
            Ok(Ty { kind: k, nullable })
        },
        None => Err(crate::error::PlanError::TypeMismatch),
    }
}

/// The kind a type expression names.
fn resolve_kind(te: &TypeExpr) -> (r: Option<TyKind>)
    ensures
        r == spec_resolve_kind(*te),
    decreases *te,
{
    match te {
        TypeExpr::SqlBoolean => Some(TyKind::Boolean),
        TypeExpr::SqlInt => Some(TyKind::Int32),
        TypeExpr::SqlBigInt => Some(TyKind::Int64),
        TypeExpr::SqlDecimal(p, s) => if 1 <= *p && *p <= MAX_DECIMAL_PRECISION && *s <= *p {
            Some(TyKind::Decimal(*p, *s))
        } else {
            None
        },
        TypeExpr::SqlDouble => Some(TyKind::Float64),
        TypeExpr::SqlVarchar => Some(TyKind::Varchar),
        TypeExpr::SqlBinary => Some(TyKind::Binary),
        TypeExpr::SqlDate => Some(TyKind::Date),
        TypeExpr::SqlTimestamp => Some(TyKind::Timestamp),
        TypeExpr::SqlArray(e) => match resolve_kind(e) {
            Some(k) => Some(TyKind::Array(Box::new(Ty { kind: k, nullable: true }))),
            None => None,
        },
        TypeExpr::SqlRow(fs) => match resolve_fields(fs) {
            Some(f) => Some(TyKind::Row(Box::new(f))),
            None => None,
        },
    }
}

/// The field types a row type expression names.
fn resolve_fields(fs: &TypeFields) -> (r: Option<FieldTypes>)
    ensures
        r == spec_resolve_fields(*fs),
    decreases *fs,
{
    match fs {
        TypeFields::LastField(te) => match resolve_kind(te) {
            Some(k) => Some(FieldTypes::Last(Ty { kind: k, nullable: true })),
            None => None,
        },
        TypeFields::MoreFields(te, rest) => {
            let head = resolve_kind(te);
            let tail = resolve_fields(rest);
            match (head, tail) {
                (Some(k), Some(f)) => Some(
                    FieldTypes::More(Ty { kind: k, nullable: true }, Box::new(f)),
                ),
                _ => None,
            }
        },
    }
}

/// Whatever `resolve` accepts is well-formed.
pub proof fn lemma_resolve_kind_wf(te: TypeExpr)
    ensures
        match spec_resolve_kind(te) {
            Some(k) => kind_wf(k),
            None => true,
        },
    decreases te,
{
    match te {
        TypeExpr::SqlArray(e) => {
            lemma_resolve_kind_wf(*e);
        },
        TypeExpr::SqlRow(fs) => {
            lemma_resolve_fields_wf(*fs);
        },
        _ => {},
    }
}

/// Whatever a row field list resolves to is well-formed.
proof fn lemma_resolve_fields_wf(fs: TypeFields)
    ensures
        match spec_resolve_fields(fs) {
            Some(f) => fields_wf(f),
            None => true,
        },
    decreases fs,
{
    match fs {
        TypeFields::LastField(te) => {
            lemma_resolve_kind_wf(te);
            match spec_resolve_kind(te) {
                Some(k) => {
                    assert(kind_wf(k));
                    assert(ty_wf(Ty { kind: k, nullable: true }));
                    assert(fields_wf(FieldTypes::Last(Ty { kind: k, nullable: true })));
                },
                None => {},
            }
        },
        TypeFields::MoreFields(te, rest) => {
            lemma_resolve_kind_wf(te);
            lemma_resolve_fields_wf(*rest);
            match (spec_resolve_kind(te), spec_resolve_fields(*rest)) {
                (Some(k), Some(f)) => {
                    assert(kind_wf(k));
                    assert(ty_wf(Ty { kind: k, nullable: true }));
                    assert(fields_wf(f));
                    assert(fields_wf(
                        FieldTypes::More(Ty { kind: k, nullable: true }, Box::new(f)),
                    ));
                },
                _ => {},
            }
        },
    }
}

/// The least upper bound of two well-formed kinds is well-formed.
pub proof fn lemma_common_kind_wf(a: TyKind, b: TyKind)
    requires
        kind_wf(a),
        kind_wf(b),
    ensures
        match spec_common_kind(a, b) {
            Some(k) => kind_wf(k),
            None => true,
        },
{
}

/// The least upper bound of two well-formed types is well-formed.
pub proof fn lemma_common_ty_wf(a: Ty, b: Ty)
    requires
        ty_wf(a),
        ty_wf(b),
    ensures
        match spec_common_ty(a, b) {
            Some(t) => ty_wf(t),
            None => true,
        },
{
    lemma_common_kind_wf(a.kind, b.kind);
}

} // verus!
