//! Ownership, disposal and scheduling core of a fine-grained reactive runtime.
//!
//! All state lives in a [`Runtime`] value that is threaded explicitly through
//! every operation; scopes, nodes, resources and stored values are plain
//! copyable handles into its tables.
pub mod runtime;
pub mod scope;
pub mod suspense;
pub mod laws;

pub use runtime::{
    CleanupId, NodeId, ResourceId, Runtime, RuntimeId, ScopeId, ScopeProperty, ScopeState,
    StoredValueId, Teardown,
};
pub use scope::{
    create_scope, on_cleanup, push_cleanup, raw_scope_and_disposer, run_scope,
    run_scope_undisposed, Scope, ScopeDisposer,
};
pub use suspense::Fragment;
