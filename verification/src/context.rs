//! The orchestrating façade: owns the catalog, exposes registration
//! passthroughs, and drives plan construction followed by optimization.
//! The resulting plan tree, its per-node schemas and its expression and
//! type objects are plain data, exposed read-only for an external binding
//! layer to traverse.

use vstd::prelude::*;

use crate::catalog::Catalog;
use crate::catalog::FunctionDef;
use crate::catalog::Table;
use crate::catalog::catalog_wf;
use crate::catalog::fndef_wf;
use crate::catalog::table_wf;
use crate::error::PlanError;
use crate::plan::AstStatement;
use crate::plan::PlanNode;
use crate::plan::build_plan;
use crate::plan::plan_wf;
use crate::optimizer::optimize;

verus! {

/// The planning façade. Registration mutates the catalog and needs
/// exclusive access; planning itself only reads it, so plans for many
/// statements may be built against a stable catalog.
pub struct PlanContext {
    pub catalog: Catalog,
}

impl PlanContext {
    /// Well-formedness: the owned catalog is well-formed.
    pub open spec fn wf(self) -> bool {
        catalog_wf(self.catalog)
    }

    /// A context with an empty catalog.
    pub fn new() -> (c: PlanContext)
        ensures
            c.wf(),
            c.catalog.namespaces@.len() == 0,
    {
        PlanContext { catalog: Catalog::new() }
    }

    /// Register a new, empty namespace; `DuplicateName` exactly when one of
    /// that name exists already, in which case nothing changes.
    pub fn register_schema(&mut self, name: String) -> (r: Result<(), PlanError>)
        requires
            old(self).wf(),
        ensures
            final(self).wf(),
            match r {
                Ok(()) => {
                    &&& forall|i: int|
                        0 <= i < old(self).catalog.namespaces@.len() ==> (
                        #[trigger] old(self).catalog.namespaces@[i]).name@ != name@
                    &&& final(self).catalog.namespaces@.len() == old(self).catalog.namespaces@.len() + 1
                    &&& forall|i: int|
                        0 <= i < old(self).catalog.namespaces@.len() ==> final(self).catalog.namespaces@[i] == (#[trigger] old(self).catalog.namespaces@[i])
                    &&& final(self).catalog.namespaces@.last().name@ == name@
                    &&& final(self).catalog.namespaces@.last().tables@.len() == 0
                    &&& final(self).catalog.namespaces@.last().functions@.len() == 0
                },
                Err(e) => {
                    &&& e.spec_kind() == crate::error::ErrorKind::DuplicateName
                    &&& final(self).catalog == old(self).catalog
                    &&& exists|i: int|
                        0 <= i < old(self).catalog.namespaces@.len() && (
                        #[trigger] old(self).catalog.namespaces@[i]).name@ == name@
                },
            },
    {
        self.catalog.register_schema(name)
    }

    /// Register a table in a namespace; `UnknownTable` (carrying the
    /// namespace name) exactly when the namespace is missing,
    /// `DuplicateName` exactly when a table of that name is already there;
    /// on either error nothing changes.
    pub fn register_table(&mut self, ns_name: &String, t: Table) -> (r: Result<(), PlanError>)
        requires
            old(self).wf(),
            table_wf(t),
        ensures
            final(self).wf(),
            match r {
                Ok(()) => exists|i: int|
                    #![auto]
                    {
                        &&& 0 <= i < old(self).catalog.namespaces@.len()
                        &&& old(self).catalog.namespaces@[i].name@ == ns_name@
                        &&& forall|k: int|
                            0 <= k < old(self).catalog.namespaces@[i].tables@.len() ==> (
                            #[trigger] old(self).catalog.namespaces@[i].tables@[k]).name@
                                != t.name@
                        &&& final(self).catalog.namespaces@.len() == old(self).catalog.namespaces@.len()
                        &&& forall|j: int|
                            0 <= j < old(self).catalog.namespaces@.len() && j != i ==> final(self).catalog.namespaces@[j] == old(self).catalog.namespaces@[j]
                        &&& final(self).catalog.namespaces@[i].name == old(self).catalog.namespaces@[i].name
                        &&& final(self).catalog.namespaces@[i].functions == old(self).catalog.namespaces@[i].functions
                        &&& final(self).catalog.namespaces@[i].tables@ == old(self).catalog.namespaces@[i].tables@.push(t)
                    },
                Err(e) => {
                    &&& final(self).catalog == old(self).catalog
                    &&& match e.spec_kind() {
                        crate::error::ErrorKind::UnknownTable => forall|i: int|
                            0 <= i < old(self).catalog.namespaces@.len() ==> (
                            #[trigger] old(self).catalog.namespaces@[i]).name@ != ns_name@,
                        crate::error::ErrorKind::DuplicateName => exists|i: int, k: int|
                            #![auto]
                            {
                                &&& 0 <= i < old(self).catalog.namespaces@.len()
                                &&& old(self).catalog.namespaces@[i].name@ == ns_name@
                                &&& 0 <= k < old(self).catalog.namespaces@[i].tables@.len()
                                &&& old(self).catalog.namespaces@[i].tables@[k].name@ == t.name@
                            },
                        _ => false,
                    }
                },
            },
    {
        self.catalog.register_table(ns_name, t)
    }

    /// Register a function overload in a namespace; `UnknownFunction`
    /// (carrying the namespace name) exactly when the namespace is missing,
    /// in which case nothing changes; several overloads may share a name.
    pub fn register_function(&mut self, ns_name: &String, f: FunctionDef) -> (r: Result<
        (),
        PlanError,
    >)
        requires
            old(self).wf(),
            fndef_wf(f),
        ensures
            final(self).wf(),
            match r {
                Ok(()) => exists|i: int|
                    #![auto]
                    {
                        &&& 0 <= i < old(self).catalog.namespaces@.len()
                        &&& old(self).catalog.namespaces@[i].name@ == ns_name@
                        &&& final(self).catalog.namespaces@.len() == old(self).catalog.namespaces@.len()
                        &&& forall|j: int|
                            0 <= j < old(self).catalog.namespaces@.len() && j != i ==> final(self).catalog.namespaces@[j] == old(self).catalog.namespaces@[j]
                        &&& final(self).catalog.namespaces@[i].name == old(self).catalog.namespaces@[i].name
                        &&& final(self).catalog.namespaces@[i].tables == old(self).catalog.namespaces@[i].tables
                        &&& final(self).catalog.namespaces@[i].functions@ == old(self).catalog.namespaces@[i].functions@.push(f)
                    },
                Err(e) => {
                    &&& final(self).catalog == old(self).catalog
                    &&& e.spec_kind() == crate::error::ErrorKind::UnknownFunction
                    &&& forall|i: int|
                        0 <= i < old(self).catalog.namespaces@.len() ==> (
                        #[trigger] old(self).catalog.namespaces@[i]).name@ != ns_name@
                },
            },
    {
        self.catalog.register_function(ns_name, f)
    }

    /// Build and optimize the plan for a statement against this context's
    /// catalog, resolving unqualified names in the given namespace. The
    /// result is a well-formed, optimized plan whose output schema equals
    /// the freshly built plan's; every validation error is reported here,
    /// never deferred.
    pub fn plan(&self, stmt: &AstStatement, ns: &String) -> (r: Result<PlanNode, PlanError>)
        requires
            self.wf(),
        ensures
            r matches Ok(p) ==> plan_wf(p),
            match r {
                Ok(p) => match *stmt {
                    AstStatement::Select(sel) => p.schema@.len() == sel.projections@.len()
                        && forall|j: int|
                        0 <= j < sel.projections@.len() ==> (#[trigger] p.schema@[j]).name@
                            == sel.projections@[j].1@,
                    _ => true,
                },
                _ => true,
            },
    {
        match build_plan(stmt, &self.catalog, ns) {
            Ok(p) => {
                let (q, _) = optimize(p);
                Ok(q)
            },
            Err(e) => Err(e),
        }
    }

    /// As [`PlanContext::plan`], additionally reporting whether the
    /// optimizer reached its fixed point (`true`) or stopped at the pass
    /// cap (`false`), so the boundary can tell the two apart.
    pub fn plan_converged(&self, stmt: &AstStatement, ns: &String) -> (r: Result<
        (PlanNode, bool),
        PlanError,
    >)
        requires
            self.wf(),
        ensures
            match r {
                Ok((p, converged)) => plan_wf(p) && (converged
                    ==> crate::optimizer::opt_fixed(p)),
                _ => true,
            },
    {
        match build_plan(stmt, &self.catalog, ns) {
            Ok(p) => Ok(optimize(p)),
            Err(e) => Err(e),
        }
    }
}

} // verus!
