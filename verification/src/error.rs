use vstd::prelude::*;

verus! {

/// The closed set of error kinds every fallible operation of the library
/// returns. Callers match on the kind; nothing is reported as a bare string.
#[derive(Debug, Clone, PartialEq, Eq)]
pub enum CortexError {
    /// The metadata store failed.
    DatabaseError { message: String },
    /// The filesystem refused access; carries an actionable hint.
    PermissionDenied { path: String, suggestion: String },
    /// A named input does not exist.
    FileNotFound { path: String },
    /// The extractor rejected an input; recorded, the pipeline continues.
    ExtractionFailed { path: String, error: String },
    /// A run was started while another run was active.
    IndexingInProgress,
    /// A query exceeded its budget.
    SearchTimeout,
    /// An empty, whitespace-only or ill-formed query.
    InvalidQuery { query: String, reason: String },
    /// An export output path rejected by the validator.
    InvalidPath { path: String, reason: String },
    /// Anything not otherwise classified.
    Internal { message: String },
}

/// The human-readable rendering of an error, one line per kind.
pub open spec fn error_message_of(e: CortexError) -> Seq<char> {
    match e {
        CortexError::DatabaseError { message } => "Database error: "@ + message@,
        CortexError::PermissionDenied { path, suggestion } => "Cannot access "@ + path@ + " -> "@
            + suggestion@,
        CortexError::FileNotFound { path } => "File not found: "@ + path@,
        CortexError::ExtractionFailed { path, error } => "Failed to extract content from "@
            + path@ + ": "@ + error@,
        CortexError::IndexingInProgress => "Indexing is already in progress"@,
        CortexError::SearchTimeout => "Search took too long. Try a more specific query."@,
        CortexError::InvalidQuery { query, reason } => "Invalid query '"@ + query@ + "': "@
            + reason@,
        CortexError::InvalidPath { path, reason } => "Invalid path '"@ + path@ + "': "@ + reason@,
        CortexError::Internal { message } => "Internal error: "@ + message@,
    }
}

impl CortexError {
    /// The rendering used wherever the error is shown to a person.
    pub fn message(&self) -> (r: String)
        ensures
            r@ == error_message_of(*self),
    {
        match self {
            CortexError::DatabaseError { message } => {
                let mut s = String::from_str("Database error: ");
                s.append(message.as_str());
                s
            },
            CortexError::PermissionDenied { path, suggestion } => {
                let mut s = String::from_str("Cannot access ");
                s.append(path.as_str());
                s.append(" -> ");
                s.append(suggestion.as_str());
                s
            },
            CortexError::FileNotFound { path } => {
                let mut s = String::from_str("File not found: ");
                s.append(path.as_str());
                s
            },
            CortexError::ExtractionFailed { path, error } => {
                let mut s = String::from_str("Failed to extract content from ");
                s.append(path.as_str());
                s.append(": ");
                s.append(error.as_str());
                s
            },
            CortexError::IndexingInProgress => String::from_str(
                "Indexing is already in progress",
            ),
            CortexError::SearchTimeout => String::from_str(
                "Search took too long. Try a more specific query.",
            ),
            CortexError::InvalidQuery { query, reason } => {
                let mut s = String::from_str("Invalid query '");
                s.append(query.as_str());
                s.append("': ");
                s.append(reason.as_str());
                s
            },
            CortexError::InvalidPath { path, reason } => {
                let mut s = String::from_str("Invalid path '");
                s.append(path.as_str());
                s.append("': ");
                s.append(reason.as_str());
                s
            },
            CortexError::Internal { message } => {
                let mut s = String::from_str("Internal error: ");
                s.append(message.as_str());
                s
            },
        }
    }
}

} // verus!
