//! The error type shared by the library.
use vstd::prelude::*;

verus! {

/// All failure modes of the library.  Each variant carries a human-readable
/// description; variants that stand for an I/O or database failure carry the
/// message of the underlying error.
#[derive(Debug, Clone, PartialEq, Eq)]
pub enum LoreError {
    /// A database-level error.
    Database(String),
    /// The database connection was closed before the call could complete.
    ConnectionClosed,
    /// A schema validation or migration error.
    Schema(String),
    /// A document parse error.
    Parse(String),
    /// An embedding model error.
    Embed(String),
    /// A registry API or network error.
    Registry(String),
    /// A requested resource was not found.
    NotFound(String),
    /// An invalid or malformed configuration.
    InvalidConfig(String),
    /// An I/O error.
    Io(String),
}

/// The message of an error: a label naming its kind, then what it carries.
pub open spec fn error_message(e: LoreError) -> Seq<char> {
    match e {
        LoreError::Database(m) => "database error: "@ + m@,
        LoreError::ConnectionClosed => "database connection closed unexpectedly"@,
        LoreError::Schema(m) => "schema error: "@ + m@,
        LoreError::Parse(m) => "parse error: "@ + m@,
        LoreError::Embed(m) => "embedding error: "@ + m@,
        LoreError::Registry(m) => "registry error: "@ + m@,
        LoreError::NotFound(m) => "not found: "@ + m@,
        LoreError::InvalidConfig(m) => "invalid configuration: "@ + m@,
        LoreError::Io(m) => "I/O error: "@ + m@,
    }
}

fn labelled(label: &str, m: &String) -> (r: String)
    ensures
        r@ == label@ + m@,
{
    let mut out = crate::text::chars_of(label);
    crate::text::push_all(&mut out, &crate::text::chars_of(m.as_str()));
    crate::text::string_of(&out)
}

impl LoreError {
    /// The human-readable message of the error (see [`error_message`]).
    pub fn message(&self) -> (r: String)
        ensures
            r@ == error_message(*self),
    {
        match self {
            LoreError::Database(m) => labelled("database error: ", m),
            LoreError::ConnectionClosed => "database connection closed unexpectedly".to_string(),
            LoreError::Schema(m) => labelled("schema error: ", m),
            LoreError::Parse(m) => labelled("parse error: ", m),
            LoreError::Embed(m) => labelled("embedding error: ", m),
            LoreError::Registry(m) => labelled("registry error: ", m),
            LoreError::NotFound(m) => labelled("not found: ", m),
            LoreError::InvalidConfig(m) => labelled("invalid configuration: ", m),
            LoreError::Io(m) => labelled("I/O error: ", m),
        }
    }
}

} // verus!
