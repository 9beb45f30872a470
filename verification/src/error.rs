use vstd::prelude::*;

verus! {

/// Failure of one compile call.  Every stage aborts the whole compile:
/// there is no partial output.
#[derive(PartialEq, Eq, Debug)]
pub enum Error {
    /// A file could not be canonicalized or read; carries the path.
    Io { path: String },
    /// No candidate file resolved for an import; carries the imported name.
    ImportNotFound { path: String },
    /// An `@import` statement was unterminated or unparsable; carries an
    /// approximate character offset into the importing file.
    MalformedImport { offset: usize },
    /// An unrecognized top-level construct or unterminated block; carries
    /// an approximate character offset into the merged source.
    Syntax { offset: usize },
    /// The import chain or rule nesting went deeper than the documented
    /// limit.
    DepthExceeded,
}

impl Error {
    /// A short human-readable description of the error kind.
    pub fn message(&self) -> (r: &'static str)
        ensures
            r@.len() > 0,
    {
        proof {
            reveal_strlit("unreadable file");
            reveal_strlit("cannot resolve import");
            reveal_strlit("malformed import statement");
            reveal_strlit("syntax error");
            reveal_strlit("nesting too deep");
        }
        match self {
            Error::Io { .. } => "unreadable file",
            Error::ImportNotFound { .. } => "cannot resolve import",
            Error::MalformedImport { .. } => "malformed import statement",
            Error::Syntax { .. } => "syntax error",
            Error::DepthExceeded => "nesting too deep",
        }
    }
}

} // verus!
