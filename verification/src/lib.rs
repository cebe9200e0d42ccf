//! Reconciliation core of a project scaffolder.
//!
//! A run merges the caller's requests into the persisted feature settings
//! ([`settings`]), plans how a declarative tree is brought onto the target
//! directory ([`render`], [`probes`]), and reconciles the manifest's
//! dependencies and run scripts with lists of candidates ([`deps`],
//! [`scripts`], [`reconcile`]). Conditions on features are evaluated in
//! [`when`]. Nothing here touches the disk: the plan is a list of steps for
//! the caller to carry out.
//!
//! What holds of every plan is proved in [`render_laws`], [`tree_shape`] and
//! [`disk_model`]: guarded entries stay unwritten, nothing is ever removed,
//! and a second pass over an unchanged tree changes nothing.

pub mod deps;
pub mod disk_model;
pub mod docs;
pub mod flipper;
pub mod manifest;
pub mod paths;
pub mod probes;
pub mod reconcile;
pub mod render;
pub mod render_laws;
pub mod scripts;
pub mod settings;
pub mod table;
pub mod text;
pub mod tree_shape;
pub mod when;
