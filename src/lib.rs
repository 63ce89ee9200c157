//! Splits one source file with nested inline modules into a workspace of
//! crates: every top-level inline module becomes a crate of its own, deeper
//! modules become directories inside it, and the rest of the file becomes the
//! `base` crate.
//!
//! The library plans the layout: it folds a declaration tree into an ordered
//! list of directory and file actions. Parsing the input and carrying out the
//! actions is left to the caller.
pub mod decl;
pub mod layout;
pub mod laws;
pub mod manifest;
pub mod plan;

pub use decl::{emit, Decl};
pub use layout::{entry_file, fold_unit, resolve_dir, Action};
pub use manifest::{unit_manifest, workspace_manifest};
pub use plan::{names_clash_free, plan_layout, LayoutError};
