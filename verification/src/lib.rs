//! A personal code-snippet store and query engine: it allocates stable
//! identifiers, answers multi-criteria filter queries, resolves edit
//! targets, selects snippets for export, and renders snippets into
//! fixed-width, colour-aware terminal boxes.  The collection is an
//! ordered sequence of snippets with pairwise distinct identifiers;
//! every mutation maps one whole collection to the next, and the
//! front end persists the result as a whole.

pub mod ansi;
pub mod command;
pub mod edit;
pub mod filter;
pub mod render;
pub mod errors;
pub mod export;
pub mod snippet;
pub mod store;
pub mod text;
