//! Workspace and document management: configuration, sidebar document lists,
//! and file naming.
pub mod changes;
pub mod config;
pub mod documents;
pub mod naming;
pub mod paths;
