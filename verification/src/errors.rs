//! The error kinds that the operations surface.  Each variant carries the
//! data that names what was asked for; presenting it is the caller's
//! concern.

use vstd::prelude::*;

verus! {

/// Why an operation could not be carried out.
#[derive(Debug, PartialEq, Eq, Clone)]
pub enum VaultError {
    /// An operation needed a snippet identifier and none was supplied.
    MissingId,
    /// No snippet carries the requested identifier.
    IdNotFound(u32),
    /// A bulk deletion named identifiers that no snippet carries; nothing
    /// was deleted.
    IdsNotFound(Vec<u32>),
    /// No snippet's tag matches the requested tag.
    TagNotFound(String),
    /// An edit was requested with neither an identifier nor a tag.
    MissingSelector,
    /// A disambiguation answer was not a number.
    InvalidChoice(String),
    /// A disambiguation answer named an identifier outside the offered
    /// candidates.
    ChoiceNotInList(u32),
    /// A comma-separated identifier list held a piece that is not an
    /// in-range number.
    InvalidIdList(String),
    /// No persisted collection exists yet.
    StoreMissing,
    /// The persisted collection exists but cannot be read back.
    StoreUnreadable(String),
    /// An export by tag found no snippet with a matching tag.
    ExportTagNotFound(Vec<String>),
    /// An export by language found no snippet with a matching language.
    ExportLanguageNotFound(Vec<String>),
    /// An export by tag and language together found snippets for neither
    /// combination.
    ExportTagLanguageMismatch(Vec<String>, Vec<String>),
}

} // verus!
