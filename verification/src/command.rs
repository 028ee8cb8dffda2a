//! The command surface, as plain data.  The command-line front end builds
//! these values; the library's operations consume them.

use vstd::prelude::*;

verus! {

/// One invocation's subcommand with its arguments.
#[derive(Debug, Clone, PartialEq)]
pub enum Commands {
    /// Add a new code snippet to the collection.
    Capture { description: String, language: String, tag: String },
    /// Show the code of the snippet with the given identifier.
    Copy { id: Option<u32> },
    /// Remove the snippets named by a comma-separated identifier list.
    Delete { id: Option<String> },
    /// Replace an existing snippet, selected by identifier or tag.
    Edit { id: Option<u32>, tag: Option<String>, language: Option<String> },
    /// Write snippet code bodies out to files, selected by identifier,
    /// tag or language.
    Export { id: Option<u32>, language: Option<String>, tag: Option<String>, path: Option<String> },
    /// List the languages the highlighter supports.
    Languages,
    /// Display snippets, narrowed by the given filters.
    View {
        id: Option<u32>,
        keyword: Option<String>,
        language: Option<String>,
        summary: bool,
        tag: Option<String>,
    },
}

/// A parsed invocation: the subcommand plus the global options.
#[derive(Debug, Clone, PartialEq)]
pub struct Cli {
    pub command: Commands,
    pub description: Option<String>,
    pub id: Option<u32>,
    pub language: Option<String>,
    pub tag: Option<String>,
}

} // verus!
