//! The registry of namespaces, tables, functions and statistics available to
//! the planner.
//!
//! A [`Catalog`] maps namespace names to [`Namespace`]s; each namespace maps
//! table names to [`Table`] definitions (unique names) and function names to
//! overload sets of [`FunctionDef`]s (several definitions may share a name,
//! disambiguated at call-resolution time by argument types). Catalog entries
//! are registered before planning and read-only afterwards; statistics are
//! consumed, never mutated, by the optimizer.

use vstd::prelude::*;

use crate::error::PlanError;
use crate::schema::Column;
use crate::schema::Schema;
use crate::schema::names_unique;
use crate::schema::schema_types_wf;
use crate::types::Ty;
use crate::types::dup_ty;
use crate::types::spec_assign_cost;
use crate::types::assign_cost;
use crate::types::ty_wf;

verus! {

/// Per-column statistics: a distinct-value estimate, the fraction of nulls
/// in parts per thousand, and min/max bounds when the column is orderable
/// and integer-representable.
#[derive(Debug, Clone, Copy, PartialEq, Eq)]
pub struct ColumnStat {
    pub distinct_count: u64,
    pub null_permille: u32,
    pub min_value: Option<i64>,
    pub max_value: Option<i64>,
}

/// Per-table statistics: a row-count estimate plus one [`ColumnStat`] per
/// schema column.
#[derive(Debug, PartialEq, Eq)]
pub struct Statistics {
    pub row_count: u64,
    pub col_stats: Vec<ColumnStat>,
}

/// Well-formedness of statistics against a column count: one entry per
/// column, null fractions within range.
pub open spec fn stats_wf(s: Statistics, n_cols: int) -> bool {
    s.col_stats@.len() == n_cols && forall|i: int|
        0 <= i < s.col_stats@.len() ==> (#[trigger] s.col_stats@[i]).null_permille <= 1000
}

/// A registered table: name, schema, optional statistics.
#[derive(Debug, PartialEq, Eq)]
pub struct Table {
    pub name: String,
    pub schema: Schema,
    pub stats: Option<Statistics>,
}

/// Well-formedness of a table: well-formed column types, unique column
/// names, and statistics (when present) matching the column count.
pub open spec fn table_wf(t: Table) -> bool {
    &&& schema_types_wf(t.schema@)
    &&& names_unique(t.schema@)
    &&& match t.stats {
        Some(s) => stats_wf(s, t.schema@.len() as int),
        None => true,
    }
}

/// Classification of a registered function.
#[derive(Debug, Clone, Copy, PartialEq, Eq, Structural)]
pub enum FnKind {
    Scalar,
    Aggregate,
    Window,
}

/// How a function's result type follows from its argument types: either a
/// fixed type, or the type of one argument.
#[derive(Debug, PartialEq, Eq)]
pub enum ReturnRule {
    Fixed(Ty),
    SameAsArg(usize),
}

/// One overload of a registered function.
#[derive(Debug, PartialEq, Eq)]
pub struct FunctionDef {
    pub name: String,
    pub params: Vec<Ty>,
    pub ret: ReturnRule,
    pub kind: FnKind,
}

/// Well-formedness of a function definition.
pub open spec fn fndef_wf(f: FunctionDef) -> bool {
    &&& forall|i: int| 0 <= i < f.params@.len() ==> ty_wf(#[trigger] f.params@[i])
    &&& match f.ret {
        ReturnRule::Fixed(t) => ty_wf(t),
        ReturnRule::SameAsArg(i) => i < f.params@.len(),
    }
}

/// A namespace: tables with unique names, plus function overload sets.
#[derive(Debug, PartialEq, Eq)]
pub struct Namespace {
    pub name: String,
    pub tables: Vec<Table>,
    pub functions: Vec<FunctionDef>,
}

/// Well-formedness of a namespace.
pub open spec fn namespace_wf(ns: Namespace) -> bool {
    &&& forall|i: int| 0 <= i < ns.tables@.len() ==> table_wf(#[trigger] ns.tables@[i])
    &&& forall|i: int, j: int|
        0 <= i < j < ns.tables@.len() ==> (#[trigger] ns.tables@[i]).name@ != (
        #[trigger] ns.tables@[j]).name@
    &&& forall|i: int| 0 <= i < ns.functions@.len() ==> fndef_wf(#[trigger] ns.functions@[i])
}

/// The catalog: namespaces with unique names.
#[derive(Debug, PartialEq, Eq)]
pub struct Catalog {
    pub namespaces: Vec<Namespace>,
}

/// Well-formedness of the whole catalog.
pub open spec fn catalog_wf(c: Catalog) -> bool {
    &&& forall|i: int| 0 <= i < c.namespaces@.len() ==> namespace_wf(#[trigger] c.namespaces@[i])
    &&& forall|i: int, j: int|
        0 <= i < j < c.namespaces@.len() ==> (#[trigger] c.namespaces@[i]).name@ != (
        #[trigger] c.namespaces@[j]).name@
}

/// Total coercion cost of a call, summed over the argument positions at and
/// after `i`; `None` when some argument is not assignable to its parameter.
pub open spec fn call_cost_from(params: Seq<Ty>, args: Seq<Ty>, i: int) -> Option<int>
    decreases params.len() - i,
{
    if i < 0 || i >= params.len() || params.len() != args.len() {
        Some(0int)
    } else {
        match (spec_assign_cost(args[i], params[i]), call_cost_from(params, args, i + 1)) {
            (Some(c), Some(rest)) => Some(c + rest),
            _ => None,
        }
    }
}

/// Total coercion cost of calling parameters `params` with arguments
/// `args`; `None` when some argument is not assignable.
pub open spec fn spec_call_cost(params: Seq<Ty>, args: Seq<Ty>) -> Option<int> {
    call_cost_from(params, args, 0)
}

/// Whether overload `f` accepts a call with this name and these argument
/// types.
pub open spec fn spec_candidate(f: FunctionDef, name: Seq<char>, args: Seq<Ty>) -> bool {
    &&& f.name@ == name
    &&& f.params@.len() == args.len()
    &&& spec_call_cost(f.params@, args) is Some
}

/// Cost of overload `f` for these arguments (meaningful when `f` is a
/// candidate).
pub open spec fn spec_candidate_cost(f: FunctionDef, args: Seq<Ty>) -> int {
    spec_call_cost(f.params@, args)->Some_0
}

/// A position whose cost is undefined makes the whole suffix cost before it
/// undefined.
proof fn lemma_cost_none_prop(params: Seq<Ty>, args: Seq<Ty>, i: int, j: int)
    requires
        params.len() == args.len(),
        0 <= j <= i < params.len(),
        call_cost_from(params, args, i) is None,
    ensures
        call_cost_from(params, args, j) is None,
    decreases i - j,
{
    if j < i {
        lemma_cost_none_prop(params, args, i, j + 1);
    }
}

/// Total coercion cost of a call; `None` when arities differ or some
/// argument is not assignable to its parameter.
pub fn call_cost(params: &Vec<Ty>, args: &Vec<Ty>) -> (r: Option<u128>)
    ensures
        params@.len() == args@.len() ==> match r {
            Some(c) => spec_call_cost(params@, args@) == Some(c as int),
            None => spec_call_cost(params@, args@) is None,
        },
{
    if params.len() != args.len() {
        return None;
    }
    let mut i: usize = params.len();
    let mut sum: u128 = 0;
    while i > 0
        invariant
            i <= params.len(),
            params@.len() == args@.len(),
            sum <= 4 * (params@.len() - i),
            call_cost_from(params@, args@, i as int) == Some(sum as int),
        decreases i,
    {
        i = i - 1;
        match assign_cost(&args[i], &params[i]) {
            Some(c) => {
                proof {
                    assert(spec_assign_cost(args@[i as int], params@[i as int]) == Some(c as int));
                    assert(c <= 4);
                }
                sum = sum + c as u128;
            },
            None => {
                proof {
                    assert(call_cost_from(params@, args@, i as int) is None);
                    if 0 < i {
                        lemma_cost_none_prop(params@, args@, i as int, 0);
                    }
                }
                return None;
            },
        }
    }
    Some(sum)
}

/// The type a resolved call returns: the fixed type or the chosen
/// argument's type, made nullable when the function is an aggregate (an
/// empty group yields NULL) or any argument is nullable.
pub open spec fn spec_return_ty(f: FunctionDef, args: Seq<Ty>) -> Ty {
    let base = match f.ret {
        ReturnRule::Fixed(t) => t,
        ReturnRule::SameAsArg(i) => args[i as int],
    };
    Ty {
        kind: base.kind,
        nullable: base.nullable || f.kind == FnKind::Aggregate || exists|i: int|
            0 <= i < args.len() && (#[trigger] args[i]).nullable,
    }
}

/// The type a resolved call returns.
pub fn return_ty(f: &FunctionDef, args: &Vec<Ty>) -> (r: Ty)
    requires
        fndef_wf(*f),
        f.params@.len() == args@.len(),
        forall|i: int| 0 <= i < args@.len() ==> ty_wf(#[trigger] args@[i]),
    ensures
        r == spec_return_ty(*f, args@),
        ty_wf(r),
{
    let mut any_nullable: bool = false;
    let mut i: usize = 0;
    while i < args.len()
        invariant
            i <= args@.len(),
            any_nullable == exists|j: int| 0 <= j < i && (#[trigger] args@[j]).nullable,
        decreases args@.len() - i,
    {
        if args[i].nullable {
            any_nullable = true;
        }
        i = i + 1;
    }
    let base: &Ty = match &f.ret {
        ReturnRule::Fixed(t) => t,
        ReturnRule::SameAsArg(k) => &args[*k],
    };
    let kind = crate::types::dup_kind(&base.kind);
    let nullable = base.nullable || matches!(f.kind, FnKind::Aggregate) || any_nullable;
    Ty { kind, nullable }
}

impl Namespace {
    /// Best-match overload resolution within this namespace's function set:
    /// the unique candidate of least total coercion cost wins; a tie is an
    /// `AmbiguousFunction` error; no candidate is an `UnknownFunction`
    /// error. Returns the index of the winning overload.
    pub fn resolve_function(&self, name: &String, args: &Vec<Ty>) -> (r: Result<usize, PlanError>)
        ensures
            match r {
                Ok(i) => {
                    &&& i < self.functions@.len()
                    &&& spec_candidate(self.functions@[i as int], name@, args@)
                    &&& forall|j: int|
                        0 <= j < self.functions@.len() && j != i && spec_candidate(
                            #[trigger] self.functions@[j],
                            name@,
                            args@,
                        ) ==> spec_candidate_cost(self.functions@[j], args@) > spec_candidate_cost(
                            self.functions@[i as int],
                            args@,
                        )
                },
                Err(e) => match e.spec_kind() {
                    crate::error::ErrorKind::UnknownFunction => forall|j: int|
                        0 <= j < self.functions@.len() ==> !spec_candidate(
                            #[trigger] self.functions@[j],
                            name@,
                            args@,
                        ),
                    crate::error::ErrorKind::AmbiguousFunction => exists|i: int, j: int|
                        #![auto]
                        {
                            &&& 0 <= i < self.functions@.len()
                            &&& 0 <= j < self.functions@.len()
                            &&& i != j
                            &&& spec_candidate(self.functions@[i], name@, args@)
                            &&& spec_candidate(self.functions@[j], name@, args@)
                            &&& spec_candidate_cost(self.functions@[i], args@)
                                == spec_candidate_cost(self.functions@[j], args@)
                            &&& forall|k: int|
                                0 <= k < self.functions@.len() && spec_candidate(
                                    #[trigger] self.functions@[k],
                                    name@,
                                    args@,
                                ) ==> spec_candidate_cost(self.functions@[k], args@)
                                    >= spec_candidate_cost(self.functions@[i], args@)
                        },
                    _ => false,
                },
            },
    {
        let mut best: Option<(usize, u128)> = None;
        let mut tie: Option<usize> = None;
        let mut idx: usize = 0;
        while idx < self.functions.len()
            invariant
                idx <= self.functions@.len(),
                match best {
                    None => tie is None && forall|j: int|
                        0 <= j < idx ==> !spec_candidate(
                            #[trigger] self.functions@[j],
                            name@,
                            args@,
                        ),
                    Some((k, c)) => {
                        &&& k < idx
                        &&& spec_candidate(self.functions@[k as int], name@, args@)
                        &&& spec_candidate_cost(self.functions@[k as int], args@) == c as int
                        &&& forall|j: int|
                            0 <= j < idx && spec_candidate(
                                #[trigger] self.functions@[j],
                                name@,
                                args@,
                            ) ==> spec_candidate_cost(self.functions@[j], args@) >= c as int
                        &&& match tie {
                            None => forall|j: int|
                                0 <= j < idx && j != k && spec_candidate(
                                    #[trigger] self.functions@[j],
                                    name@,
                                    args@,
                                ) ==> spec_candidate_cost(self.functions@[j], args@) > c as int,
                            Some(t) => {
                                &&& t < idx
                                &&& t != k
                                &&& spec_candidate(self.functions@[t as int], name@, args@)
                                &&& spec_candidate_cost(self.functions@[t as int], args@)
                                    == c as int
                            },
                        }
                    },
                },
            decreases self.functions@.len() - idx,
        {
            let f = &self.functions[idx];
            if f.name == *name && f.params.len() == args.len() {
                match call_cost(&f.params, args) {
                    Some(c) => {
                        match best {
                            None => {
                                best = Some((idx, c));
                                tie = None;
                            },
                            Some((k, bc)) => {
                                if c < bc {
                                    best = Some((idx, c));
                                    tie = None;
                                } else if c == bc {
                                    tie = Some(idx);
                                }
                            },
                        }
                    },
                    None => {},
                }
            }
            idx = idx + 1;
        }
        match best {
            None => Err(PlanError::UnknownFunction(name.clone())),
            Some((k, c)) => match tie {
                None => Ok(k),
                Some(t) => {
                    proof {
                        assert(spec_candidate(self.functions@[k as int], name@, args@)
                            && spec_candidate(self.functions@[t as int], name@, args@) && k != t);
                    }
                    Err(PlanError::AmbiguousFunction(name.clone()))
                },
            },
        }
    }
}

impl Catalog {
    /// An empty catalog.
    pub fn new() -> (c: Catalog)
        ensures
            c.namespaces@.len() == 0,
            catalog_wf(c),
    {
        Catalog { namespaces: Vec::new() }
    }

    /// The position of the namespace with this name, if any.
    pub fn find_namespace(&self, name: &String) -> (r: Option<usize>)
        ensures
            match r {
                Some(i) => i < self.namespaces@.len() && self.namespaces@[i as int].name@ == name@,
                None => forall|i: int|
                    0 <= i < self.namespaces@.len() ==> (#[trigger] self.namespaces@[i]).name@
                        != name@,
            },
    {
        let mut i: usize = 0;
        while i < self.namespaces.len()
            invariant
                i <= self.namespaces@.len(),
                forall|j: int|
                    0 <= j < i ==> (#[trigger] self.namespaces@[j]).name@ != name@,
            decreases self.namespaces@.len() - i,
        {
            let ns = &self.namespaces[i];
            if ns.name == *name {
                return Some(i);
            }
            i = i + 1;
        }
        None
    }

    /// Register a new, empty namespace under this name; `DuplicateName`
    /// when a namespace of that name already exists.
    pub fn register_schema(&mut self, name: String) -> (r: Result<(), PlanError>)
        requires
            catalog_wf(*old(self)),
        ensures
            catalog_wf(*final(self)),
            match r {
                Ok(()) => {
                    &&& forall|i: int|
                        0 <= i < old(self).namespaces@.len() ==> (
                        #[trigger] old(self).namespaces@[i]).name@ != name@
                    &&& final(self).namespaces@.len() == old(self).namespaces@.len() + 1
                    &&& forall|i: int|
                        0 <= i < old(self).namespaces@.len() ==> final(self).namespaces@[i] == (
                        #[trigger] old(self).namespaces@[i])
                    &&& final(self).namespaces@.last().name@ == name@
                    &&& final(self).namespaces@.last().tables@.len() == 0
                    &&& final(self).namespaces@.last().functions@.len() == 0
                },
                Err(e) => {
                    &&& e.spec_kind() == crate::error::ErrorKind::DuplicateName
                    &&& *final(self) == *old(self)
                    &&& exists|i: int|
                        0 <= i < old(self).namespaces@.len() && (
                        #[trigger] old(self).namespaces@[i]).name@ == name@
                },
            },
    {
        match self.find_namespace(&name) {
            Some(i) => {
                proof {
                    assert((self.namespaces@[i as int]).name@ == name@);
                }
                Err(PlanError::DuplicateName(name))
            },
            None => {
                let ns = Namespace { name, tables: Vec::new(), functions: Vec::new() };
                self.namespaces.push(ns);
                Ok(())
            },
        }
    }

    /// Register a table in a namespace. `UnknownTable` (carrying the
    /// namespace name) when the namespace does not exist; `DuplicateName`
    /// when a table of that name is already registered there.
    pub fn register_table(&mut self, ns_name: &String, t: Table) -> (r: Result<(), PlanError>)
        requires
            catalog_wf(*old(self)),
            table_wf(t),
        ensures
            catalog_wf(*final(self)),
            match r {
                Ok(()) => exists|i: int|
                    #![auto]
                    {
                        &&& 0 <= i < old(self).namespaces@.len()
                        &&& old(self).namespaces@[i].name@ == ns_name@
                        &&& forall|k: int|
                            0 <= k < old(self).namespaces@[i].tables@.len() ==> (
                            #[trigger] old(self).namespaces@[i].tables@[k]).name@ != t.name@
                        &&& final(self).namespaces@.len() == old(self).namespaces@.len()
                        &&& forall|j: int|
                            0 <= j < old(self).namespaces@.len() && j != i ==> final(self).namespaces@[j] == old(self).namespaces@[j]
                        &&& final(self).namespaces@[i].name == old(self).namespaces@[i].name
                        &&& final(self).namespaces@[i].functions == old(self).namespaces@[i].functions
                        &&& final(self).namespaces@[i].tables@ == old(self).namespaces@[i].tables@.push(t)
                    },
                Err(e) => {
                    &&& *final(self) == *old(self)
                    &&& match e.spec_kind() {
                        crate::error::ErrorKind::UnknownTable => forall|i: int|
                            0 <= i < old(self).namespaces@.len() ==> (
                            #[trigger] old(self).namespaces@[i]).name@ != ns_name@,
                        crate::error::ErrorKind::DuplicateName => exists|i: int, k: int|
                            #![auto]
                            {
                                &&& 0 <= i < old(self).namespaces@.len()
                                &&& old(self).namespaces@[i].name@ == ns_name@
                                &&& 0 <= k < old(self).namespaces@[i].tables@.len()
                                &&& old(self).namespaces@[i].tables@[k].name@ == t.name@
                            },
                        _ => false,
                    }
                },
            },
    {
        let i = match self.find_namespace(ns_name) {
            None => {
                return Err(PlanError::UnknownTable(ns_name.clone()));
            },
            Some(i) => i,
        };
        let ns_ref = &self.namespaces[i];
        let mut k: usize = 0;
        while k < ns_ref.tables.len()
            invariant
                k <= ns_ref.tables@.len(),
                i < self.namespaces@.len(),
                *self == *old(self),
                catalog_wf(*self),
                *ns_ref == self.namespaces@[i as int],
                ns_ref.name@ == ns_name@,
                forall|j: int| 0 <= j < k ==> (#[trigger] ns_ref.tables@[j]).name@ != t.name@,
            decreases ns_ref.tables@.len() - k,
        {
            let existing = &ns_ref.tables[k];
            if existing.name == t.name {
                proof {
                    assert((self.namespaces@[i as int].tables@[k as int]).name@ == t.name@);
                }
                return Err(PlanError::DuplicateName(t.name));
            }
            k = k + 1;
        }
        let ghost old_nss = self.namespaces@;
        let mut ns = self.namespaces.remove(i);
        ns.tables.push(t);
        self.namespaces.insert(i, ns);
        proof {
            let nss = self.namespaces@;
            let nsold = old_nss[i as int];
            let nsnew = nss[i as int];
            assert(nss =~= old_nss.update(i as int, nsnew));
            assert(nsnew.tables@ == nsold.tables@.push(t));
            assert(namespace_wf(nsnew)) by {
                assert(namespace_wf(nsold));
                assert forall|x: int| 0 <= x < nsnew.tables@.len() implies table_wf(
                    #[trigger] nsnew.tables@[x],
                ) by {
                    if x < nsold.tables@.len() {
                        assert(nsnew.tables@[x] == nsold.tables@[x]);
                    } else {
                        assert(nsnew.tables@[x] == t);
                    }
                }
                assert forall|x: int, y: int| 0 <= x < y < nsnew.tables@.len() implies (
                #[trigger] nsnew.tables@[x]).name@ != (#[trigger] nsnew.tables@[y]).name@ by {
                    if y < nsold.tables@.len() {
                        assert(nsnew.tables@[x] == nsold.tables@[x]);
                        assert(nsnew.tables@[y] == nsold.tables@[y]);
                    } else {
                        assert(nsnew.tables@[y] == t);
                        assert(nsnew.tables@[x] == nsold.tables@[x]);
                    }
                }
            }
            assert(catalog_wf(*self)) by {
                assert forall|x: int| 0 <= x < nss.len() implies namespace_wf(
                    #[trigger] nss[x],
                ) by {
                    if x != i as int {
                        assert(nss[x] == old_nss[x]);
                    }
                }
                assert(forall|x: int| 0 <= x < nss.len() ==> (#[trigger] nss[x]).name
                    == old_nss[x].name);
            }
        }
        Ok(())
    }

    /// Register a function overload in a namespace. `UnknownFunction`
    /// (carrying the namespace name) when the namespace does not exist;
    /// several overloads may share a name.
    pub fn register_function(&mut self, ns_name: &String, f: FunctionDef) -> (r: Result<
        (),
        PlanError,
    >)
        requires
            catalog_wf(*old(self)),
            fndef_wf(f),
        ensures
            catalog_wf(*final(self)),
            match r {
                Ok(()) => exists|i: int|
                    #![auto]
                    {
                        &&& 0 <= i < old(self).namespaces@.len()
                        &&& old(self).namespaces@[i].name@ == ns_name@
                        &&& final(self).namespaces@.len() == old(self).namespaces@.len()
                        &&& forall|j: int|
                            0 <= j < old(self).namespaces@.len() && j != i ==> final(self).namespaces@[j] == old(self).namespaces@[j]
                        &&& final(self).namespaces@[i].name == old(self).namespaces@[i].name
                        &&& final(self).namespaces@[i].tables == old(self).namespaces@[i].tables
                        &&& final(self).namespaces@[i].functions@ == old(self).namespaces@[i].functions@.push(f)
                    },
                Err(e) => {
                    &&& *final(self) == *old(self)
                    &&& e.spec_kind() == crate::error::ErrorKind::UnknownFunction
                    &&& forall|i: int|
                        0 <= i < old(self).namespaces@.len() ==> (
                        #[trigger] old(self).namespaces@[i]).name@ != ns_name@
                },
            },
    {
        let i = match self.find_namespace(ns_name) {
            None => {
                return Err(PlanError::UnknownFunction(ns_name.clone()));
            },
            Some(i) => i,
        };
        let ghost old_nss = self.namespaces@;
        let mut ns = self.namespaces.remove(i);
        ns.functions.push(f);
        self.namespaces.insert(i, ns);
        proof {
            let nss = self.namespaces@;
            let nsold = old_nss[i as int];
            let nsnew = nss[i as int];
            assert(nss =~= old_nss.update(i as int, nsnew));
            assert(nsnew.functions@ == nsold.functions@.push(f));
            assert(namespace_wf(nsnew)) by {
                assert(namespace_wf(nsold));
                assert forall|x: int| 0 <= x < nsnew.functions@.len() implies fndef_wf(
                    #[trigger] nsnew.functions@[x],
                ) by {
                    if x < nsold.functions@.len() {
                        assert(nsnew.functions@[x] == nsold.functions@[x]);
                    } else {
                        assert(nsnew.functions@[x] == f);
                    }
                }
            }
            assert(catalog_wf(*self)) by {
                assert forall|x: int| 0 <= x < nss.len() implies namespace_wf(
                    #[trigger] nss[x],
                ) by {
                    if x != i as int {
                        assert(nss[x] == old_nss[x]);
                    }
                }
                assert(forall|x: int| 0 <= x < nss.len() ==> (#[trigger] nss[x]).name
                    == old_nss[x].name);
            }
        }
        Ok(())
    }

    /// Look a table up by qualified name.
    pub fn lookup_table(&self, ns_name: &String, name: &String) -> (r: Option<&Table>)
        requires
            catalog_wf(*self),
        ensures
            match r {
                Some(t) => exists|i: int, j: int|
                    #![auto]
                    {
                        &&& 0 <= i < self.namespaces@.len()
                        &&& self.namespaces@[i].name@ == ns_name@
                        &&& 0 <= j < self.namespaces@[i].tables@.len()
                        &&& *t == self.namespaces@[i].tables@[j]
                        &&& t.name@ == name@
                    },
                None => forall|i: int, j: int|
                    0 <= i < self.namespaces@.len() && (#[trigger] self.namespaces@[i]).name@
                        == ns_name@ && 0 <= j < self.namespaces@[i].tables@.len() ==> (
                    #[trigger] self.namespaces@[i].tables@[j]).name@ != name@,
            },
    {
        let i = match self.find_namespace(ns_name) {
            None => {
                return None;
            },
            Some(i) => i,
        };
        let ns = &self.namespaces[i];
        let mut j: usize = 0;
        while j < ns.tables.len()
            invariant
                j <= ns.tables@.len(),
                i < self.namespaces@.len(),
                *ns == self.namespaces@[i as int],
                ns.name@ == ns_name@,
                forall|k: int| 0 <= k < j ==> (#[trigger] ns.tables@[k]).name@ != name@,
            decreases ns.tables@.len() - j,
        {
            let t = &ns.tables[j];
            if t.name == *name {
                proof {
                    assert(self.namespaces@[i as int].tables@[j as int].name@ == name@);
                }
                return Some(t);
            }
            j = j + 1;
        }
        proof {
            assert forall|i2: int|
                0 <= i2 < self.namespaces@.len() && (#[trigger] self.namespaces@[i2]).name@
                    == ns_name@ implies i2 == i as int by {
                if i2 < i as int {
                    assert(self.namespaces@[i2].name@ != self.namespaces@[i as int].name@);
                } else if i2 > i as int {
                    assert(self.namespaces@[i as int].name@ != self.namespaces@[i2].name@);
                }
            }
        }
        None
    }

    /// Resolve a qualified function call by best-match overload resolution;
    /// returns the namespace position and overload position of the winner.
    /// `UnknownFunction` exactly when the namespace is missing or no
    /// overload there accepts the arguments; `AmbiguousFunction` exactly
    /// when two least-cost candidates tie.
    pub fn lookup_function(&self, ns_name: &String, name: &String, args: &Vec<Ty>) -> (r: Result<
        (usize, usize),
        PlanError,
    >)
        requires
            catalog_wf(*self),
        ensures
            match r {
                Ok((i, j)) => {
                    &&& i < self.namespaces@.len()
                    &&& self.namespaces@[i as int].name@ == ns_name@
                    &&& j < self.namespaces@[i as int].functions@.len()
                    &&& spec_candidate(self.namespaces@[i as int].functions@[j as int], name@, args@)
                    &&& forall|k: int|
                        0 <= k < self.namespaces@[i as int].functions@.len() && k != j
                            && spec_candidate(
                            #[trigger] self.namespaces@[i as int].functions@[k],
                            name@,
                            args@,
                        ) ==> spec_candidate_cost(self.namespaces@[i as int].functions@[k], args@)
                            > spec_candidate_cost(
                            self.namespaces@[i as int].functions@[j as int],
                            args@,
                        )
                },
                Err(e) => match e.spec_kind() {
                    crate::error::ErrorKind::UnknownFunction => (forall|i: int|
                        0 <= i < self.namespaces@.len() ==> (#[trigger] self.namespaces@[i]).name@
                            != ns_name@) || exists|i: int|
                        #![auto]
                        {
                            &&& 0 <= i < self.namespaces@.len()
                            &&& self.namespaces@[i].name@ == ns_name@
                            &&& forall|j: int|
                                0 <= j < self.namespaces@[i].functions@.len() ==> !spec_candidate(
                                    #[trigger] self.namespaces@[i].functions@[j],
                                    name@,
                                    args@,
                                )
                        },
                    crate::error::ErrorKind::AmbiguousFunction => exists|i: int, x: int, y: int|
                        #![auto]
                        {
                            &&& 0 <= i < self.namespaces@.len()
                            &&& self.namespaces@[i].name@ == ns_name@
                            &&& 0 <= x < self.namespaces@[i].functions@.len()
                            &&& 0 <= y < self.namespaces@[i].functions@.len()
                            &&& x != y
                            &&& spec_candidate(self.namespaces@[i].functions@[x], name@, args@)
                            &&& spec_candidate(self.namespaces@[i].functions@[y], name@, args@)
                            &&& spec_candidate_cost(self.namespaces@[i].functions@[x], args@)
                                == spec_candidate_cost(self.namespaces@[i].functions@[y], args@)
                            &&& forall|k: int|
                                0 <= k < self.namespaces@[i].functions@.len() && spec_candidate(
                                    #[trigger] self.namespaces@[i].functions@[k],
                                    name@,
                                    args@,
                                ) ==> spec_candidate_cost(self.namespaces@[i].functions@[k], args@)
                                    >= spec_candidate_cost(
                                    self.namespaces@[i].functions@[x],
                                    args@,
                                )
                        },
                    _ => false,
                },
            },
    {
        let i = match self.find_namespace(ns_name) {
            None => {
                return Err(PlanError::UnknownFunction(name.clone()));
            },
            Some(i) => i,
        };
        let ns = &self.namespaces[i];
        match ns.resolve_function(name, args) {
            Ok(j) => Ok((i, j)),
            Err(e) => {
                proof {
                    assert(*ns == self.namespaces@[i as int]);
                    if e.spec_kind() == crate::error::ErrorKind::AmbiguousFunction {
                        let (x, y) = choose|x: int, y: int|
                            #![auto]
                            {
                                &&& 0 <= x < ns.functions@.len()
                                &&& 0 <= y < ns.functions@.len()
                                &&& x != y
                                &&& spec_candidate(ns.functions@[x], name@, args@)
                                &&& spec_candidate(ns.functions@[y], name@, args@)
                                &&& spec_candidate_cost(ns.functions@[x], args@)
                                    == spec_candidate_cost(ns.functions@[y], args@)
                                &&& forall|k: int|
                                    0 <= k < ns.functions@.len() && spec_candidate(
                                        #[trigger] ns.functions@[k],
                                        name@,
                                        args@,
                                    ) ==> spec_candidate_cost(ns.functions@[k], args@)
                                        >= spec_candidate_cost(ns.functions@[x], args@)
                            };
                        assert((i as int) < self.namespaces@.len()
                            && self.namespaces@[i as int].name@ == ns_name@ && 0 <= x && x
                            < self.namespaces@[i as int].functions@.len() && 0 <= y && y
                            < self.namespaces@[i as int].functions@.len() && x != y
                            && spec_candidate(
                            self.namespaces@[i as int].functions@[x],
                            name@,
                            args@,
                        ) && spec_candidate(self.namespaces@[i as int].functions@[y], name@, args@)
                            && spec_candidate_cost(self.namespaces@[i as int].functions@[x], args@)
                            == spec_candidate_cost(
                            self.namespaces@[i as int].functions@[y],
                            args@,
                        ));
                    }
                }
                Err(e)
            },
        }
    }
}

} // verus!
