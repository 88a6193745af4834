//! An expression handle compared by allocation, not by value.

use vstd::prelude::*;

use std::sync::Arc;

use crate::expr::Expr;

verus! {

/// An [`Expr`] wrapper whose notion of sameness is the allocation address of
/// the shared node, not the tree's value. Two handles cloned from one
/// another compare the same; two independently built but value-equal trees
/// do not. Collaborators that key maps by allocation, such as source
/// position tables, use this wrapper.
#[derive(Debug)]
pub struct ExprRefCmp(pub Expr);

impl ExprRefCmp {
    /// Relies on `Arc::ptr_eq`: it compares the addresses of the two
    /// allocations, and two handles to one allocation hold equal trees.
    #[verifier::external_body]
    pub fn ptr_eq(&self, other: &ExprRefCmp) -> (r: bool)
        ensures
            r ==> self.0@ == other.0@,
    {
        Arc::ptr_eq(&self.0.inner, &other.0.inner)
    }
}

} // verus!
