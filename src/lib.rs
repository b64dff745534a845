//! Detects drift between the Python dependencies a project declares and the
//! ones installed in its environment.
//!
//! The library holds the logic: parsing of dependency specifiers, the mapping
//! that collects them, the collection over requirement files, a manifest and
//! the freeze listing, and the two-way reconciliation of the results.
pub mod text;
pub mod specifier;
pub mod mapping;
pub mod reconcile;
pub mod manifest;
pub mod collect;
pub mod laws;
