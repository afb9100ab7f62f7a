//! Verified core of a branching-dialogue authoring backend.
//!
//! A dialogue is a graph of typed nodes (spoken lines, choice sets and
//! condition branches) that reference each other and the project's typed
//! variables by identifier.  This crate models those graphs, validates their
//! referential coherence before a save, splits bulky text payloads out of the
//! graph record, and maintains a reverse index from variables to the branch
//! nodes that reference them, updated by structural diffing.  Persistence,
//! configuration and UI wiring live outside this crate and talk to it through
//! plain values.

pub mod character;
pub mod dialog;
pub mod errors;
pub mod gitter;
pub mod ids;
pub mod interfaces;
pub mod meta;
pub mod project;
pub mod provider;
pub mod seq_facts;
pub mod service;
pub mod variables;
