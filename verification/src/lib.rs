//! Compile-time-style reflection over declared types, at run time: a type
//! registers a structural description of itself (its attributes, fields and
//! variants, and which fields opt into aggregation), and the registry builds
//! a queryable tree of attribute metadata for it, linking the trees of nested
//! aggregated types and caching every tree so it is built at most once.
//!
//! A type can only link to aggregation targets that are already registered,
//! so the aggregation graph is acyclic by construction and a declaration
//! that would close a cycle is rejected at registration time.

use std::rc::Rc;
use vstd::prelude::*;

pub mod classify;
pub mod decl;
pub mod fmt;
pub mod keys;
pub mod laws;
pub mod registry;
pub mod types;
pub mod validate;

verus! {

/// The aggregation capability. A participating type registers its own
/// declaration descriptor (once) with the registry and hands back the tree
/// the registry builds for it; transparent wrappers forward to the wrapped
/// type instead. Implementations live with the types that opt in — the
/// library provides the registry they call into.
pub trait Aggregate {
    fn aggregate(registry: &mut registry::Registry) -> Result<
        Rc<types::Amalgamate>,
        decl::AggregateError,
    >;
}

} // verus!

