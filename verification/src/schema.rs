//! Ordered column lists.
//!
//! A [`Schema`] is an ordered sequence of `(name, Ty)` pairs. Schemas owned
//! by catalog tables have unique column names; schemas derived for plan
//! operators may carry duplicate names (a projection may output the same
//! name twice, and a join concatenates both input schemas), in which case
//! name lookup reports the ambiguity instead of picking a side.

use vstd::prelude::*;

use crate::types::Ty;
use crate::types::dup_ty;
use crate::types::ty_wf;

verus! {

/// A named, typed output column.
#[derive(Debug, PartialEq, Eq)]
pub struct Column {
    pub name: String,
    pub ty: Ty,
}

/// An ordered sequence of columns.
#[derive(Debug, PartialEq, Eq)]
pub struct Schema {
    pub cols: Vec<Column>,
}

impl View for Schema {
    type V = Seq<Column>;

    open spec fn view(&self) -> Seq<Column> {
        self.cols@
    }
}

/// Every column type of the sequence is well-formed.
pub open spec fn schema_types_wf(s: Seq<Column>) -> bool {
    forall|i: int| 0 <= i < s.len() ==> ty_wf(#[trigger] s[i].ty)
}

/// No two columns of the sequence share a name.
pub open spec fn names_unique(s: Seq<Column>) -> bool {
    forall|i: int, j: int| 0 <= i < j < s.len() ==> #[trigger] s[i].name@ != #[trigger] s[j].name@
}

/// Outcome of resolving a column name against a schema.
#[derive(Debug, PartialEq, Eq, Structural)]
pub enum ColLookup {
    /// No column carries the name.
    Missing,
    /// Exactly one column carries the name; its position.
    Unique(usize),
    /// More than one column carries the name.
    Ambiguous,
}

impl Column {
    /// A structurally equal copy of this column.
    pub fn dup(&self) -> (r: Column)
        ensures
            r == *self,
    {
        Column { name: self.name.clone(), ty: dup_ty(&self.ty) }
    }
}

impl Schema {
    /// The empty schema.
    pub fn empty() -> (s: Schema)
        ensures
            s@ =~= Seq::<Column>::empty(),
    {
        Schema { cols: Vec::new() }
    }

    /// Number of columns.
    pub fn len(&self) -> (n: usize)
        ensures
            n == self@.len(),
    {
        self.cols.len()
    }

    /// The column at a position.
    pub fn col(&self, i: usize) -> (c: &Column)
        requires
            i < self@.len(),
        ensures
            *c == self@[i as int],
    {
        &self.cols[i]
    }

    /// Append a column.
    pub fn push(&mut self, c: Column)
        ensures
            final(self)@ == old(self)@.push(c),
    {
        self.cols.push(c);
    }

    /// A structurally equal copy of this schema.
    pub fn dup(&self) -> (r: Schema)
        ensures
            r@ == self@,
    {
        let mut cols: Vec<Column> = Vec::new();
        let mut i: usize = 0;
        while i < self.cols.len()
            invariant
                i <= self.cols.len(),
                cols@.len() == i,
                forall|j: int| 0 <= j < i ==> cols@[j] == self.cols@[j],
            decreases self.cols.len() - i,
        {
            cols.push(self.cols[i].dup());
            i = i + 1;
        }
        let r = Schema { cols };
        assert(r@ =~= self@);
        r
    }

    /// The concatenation of this schema with another, left columns first.
    pub fn concat(&self, other: &Schema) -> (r: Schema)
        ensures
            r@ == self@ + other@,
    {
        let mut r = self.dup();
        let mut i: usize = 0;
        while i < other.cols.len()
            invariant
                i <= other.cols.len(),
                r@.len() == self@.len() + i,
                forall|j: int| 0 <= j < self@.len() ==> r@[j] == self@[j],
                forall|j: int| 0 <= j < i ==> r@[self@.len() + j] == other@[j],
            decreases other.cols.len() - i,
        {
            r.cols.push(other.cols[i].dup());
            i = i + 1;
        }
        assert(r@ =~= self@ + other@);
        r
    }

    /// Resolve a column name: missing, unique (with its position), or
    /// ambiguous.
    pub fn lookup(&self, name: &String) -> (r: ColLookup)
        ensures
            match r {
                ColLookup::Missing => forall|j: int|
                    0 <= j < self@.len() ==> (#[trigger] self@[j].name)@ != name@,
                ColLookup::Unique(i) => i < self@.len() && self@[i as int].name@ == name@ && forall|
                    j: int,
                |
                    0 <= j < self@.len() && j != i ==> (#[trigger] self@[j].name)@ != name@,
                ColLookup::Ambiguous => exists|i: int, j: int|
                    0 <= i < j < self@.len() && (#[trigger] self@[i].name)@ == name@ && (
                    #[trigger] self@[j].name)@ == name@,
            },
    {
        let mut found: Option<usize> = None;
        let mut i: usize = 0;
        while i < self.cols.len()
            invariant
                i <= self.cols.len(),
                match found {
                    None => forall|j: int|
                        0 <= j < i ==> (#[trigger] self@[j].name)@ != name@,
                    Some(k) => k < i && self@[k as int].name@ == name@ && forall|j: int|
                        0 <= j < i && j != k ==> (#[trigger] self@[j].name)@ != name@,
                },
            decreases self.cols.len() - i,
        {
            let c = &self.cols[i];
            if c.name == *name {
                match found {
                    None => {
                        found = Some(i);
                    },
                    Some(k) => {
                        proof {
                            let ki = k as int;
                            let ii = i as int;
                            assert(0 <= ki < ii < self@.len());
                            assert((#[trigger] self@[ki].name)@ == name@);
                            assert((#[trigger] self@[ii].name)@ == name@);
                        }
                        return ColLookup::Ambiguous;
                    },
                }
            }
            i = i + 1;
        }
        match found {
            None => ColLookup::Missing,
            Some(k) => ColLookup::Unique(k),
        }
    }
}

} // verus!
