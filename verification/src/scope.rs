//! Scopes: the nodes of the configuration tree.
//!
//! A scope owns a path prefix, at most one shared state value, an
//! ordered list of modifiers and at most one fallback; its children
//! inherit all of them.

use vstd::prelude::*;

use crate::uri::Uri;

verus! {

/// The identity of a scope: the implicit global scope, or the `n`-th
/// mounted scope in depth-first registration order.
#[derive(Debug, Clone, Copy, PartialEq, Eq, Hash, Structural)]
pub enum ScopeId {
    Global,
    Local(usize),
}

/// The identity of a route: the scope that registered it and its
/// endpoint index.
#[derive(Debug, Clone, Copy, PartialEq, Eq, Structural)]
pub struct RouteId(pub ScopeId, pub usize);

/// One node of the scope tree.
#[derive(Debug)]
pub struct Scope<T, M, F> {
    /// The absolute prefix of the scope.
    pub prefix: Uri,
    /// The parent scope; the global scope is its own root.
    pub parent: ScopeId,
    /// The state value this scope sets, if any.
    pub state: Option<T>,
    /// The modifiers this scope registers, in registration order.
    pub modifiers: Vec<M>,
    /// The fallback this scope sets, if any.
    pub fallback: Option<F>,
}

impl<T, M, F> Scope<T, M, F> {
    /// A fresh scope with the given prefix and parent, setting nothing.
    pub fn new(prefix: Uri, parent: ScopeId) -> (r: Self)
        ensures
            r.prefix == prefix,
            r.parent == parent,
            r.state is None,
            r.modifiers@ == Seq::<M>::empty(),
            r.fallback is None,
    {
        let r = Scope { prefix, parent, state: None, modifiers: Vec::new(), fallback: None };
        proof {
            assert(r.modifiers@ =~= Seq::<M>::empty());
        }
        r
    }
}

/// A well-founded rank for walking up the tree: parents always rank
/// below their children.
pub open spec fn scope_rank(id: ScopeId) -> int {
    match id {
        ScopeId::Global => 0,
        ScopeId::Local(i) => i + 1,
    }
}

} // verus!
