//! Scoped configuration of tool servers: where each scope's file lives, how the scopes are
//! read in precedence order, and how servers are added, removed and imported.
pub mod aggregate;
pub mod env_parse;
pub mod ops;
pub mod opt_out;
pub mod registry;
pub mod scope;
