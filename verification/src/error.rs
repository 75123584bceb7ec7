//! Crate-wide error types.

use vstd::prelude::*;
use crate::text::{chars_of, string_of};

verus! {

#[verifier::external_type_specification]
#[verifier::external_body]
pub struct ExIoError(std::io::Error);

/// Application-level errors.
#[derive(Debug)]
#[non_exhaustive]
pub enum ArtifactError {
    /// A problem reading or applying the TOML configuration file.
    Configuration(String),
    /// The database could not be created or opened.
    DatabaseInit(String),
    /// A connection-level database error (version mismatch, corrupt file).
    DatabaseConnection(String),
    /// A query, transaction, or commit failed at runtime.
    DatabaseQuery(String),
    /// The filesystem scan encountered an unrecoverable error.
    Scan(String),
    /// An underlying OS I/O error.
    Io(std::io::Error),
    /// A path could not be parsed or converted to a valid UTF-8 string.
    Path(String),
}

/// Convenience alias for `Result<T, ArtifactError>`.
pub type Result<T> = core::result::Result<T, ArtifactError>;

/// The text of an I/O error: its `Display` rendering.
///
/// Trusted, with nothing stated of the text: `std::io::Error` is opaque here.
#[verifier::external_body]
fn io_error_text(e: &std::io::Error) -> String {
    e.to_string()
}

/// `prefix` followed by `msg`.
pub fn prefixed(prefix: &str, msg: &String) -> (s: String)
    ensures
        s@ == prefix@ + msg@,
{
    let mut cs = chars_of(prefix);
    let ms = chars_of(msg.as_str());
    let mut i: usize = 0;
    let ghost start = cs@;
    while i < ms.len()
        invariant
            i <= ms@.len(),
            cs@ == start + ms@.subrange(0, i as int),
        decreases ms@.len() - i,
    {
        cs.push(ms[i]);
        i = i + 1;
        assert(cs@ =~= start + ms@.subrange(0, i as int));
    }
    assert(ms@.subrange(0, ms@.len() as int) =~= ms@);
    string_of(&cs)
}


/// `a` followed by `b`.
pub fn join2(a: &str, b: &str) -> (s: String)
    ensures
        s@ == a@ + b@,
{
    let t = string_of(&chars_of(b));
    prefixed(a, &t)
}

/// `a`, then `b`, then `c`, then `d`.
pub fn join4(a: &str, b: &str, c: &str, d: &str) -> (s: String)
    ensures
        s@ == a@ + b@ + c@ + d@,
{
    let mut cs = chars_of(a);
    let parts = [b, c, d];
    let ghost start = cs@;
    let mut i: usize = 0;
    while i < 3
        invariant
            i <= 3,
            parts@ == seq![b, c, d],
            cs@ == if i == 0 { a@ } else if i == 1 { a@ + b@ } else if i == 2 { a@ + b@ + c@ } else { a@ + b@ + c@ + d@ },
        decreases 3 - i,
    {
        let more = chars_of(parts[i]);
        let mut k: usize = 0;
        let ghost before = cs@;
        while k < more.len()
            invariant
                k <= more@.len(),
                cs@ == before + more@.subrange(0, k as int),
            decreases more@.len() - k,
        {
            cs.push(more[k]);
            k = k + 1;
            assert(cs@ =~= before + more@.subrange(0, k as int));
        }
        assert(more@.subrange(0, more@.len() as int) =~= more@);
        i = i + 1;
    }
    string_of(&cs)
}

impl ArtifactError {
    /// A human-readable message suitable for display in the UI.
    pub fn user_message(&self) -> (s: String)
        ensures
            match self {
                ArtifactError::Configuration(m) => s@ == "Configuration problem: "@ + m@,
                ArtifactError::DatabaseInit(m) => s@ == "Could not initialize database: "@ + m@,
                ArtifactError::DatabaseConnection(m) => s@ == "Database connection failed: "@ + m@,
                ArtifactError::DatabaseQuery(m) => s@ == "Database query failed: "@ + m@,
                ArtifactError::Scan(m) => s@ == "Scan failed: "@ + m@,
                ArtifactError::Io(_) => "IO error: "@.is_prefix_of(s@),
                ArtifactError::Path(m) => s@ == "Path error: "@ + m@,
            },
    {
        match self {
            ArtifactError::Configuration(m) => prefixed("Configuration problem: ", m),
            ArtifactError::DatabaseInit(m) => prefixed("Could not initialize database: ", m),
            ArtifactError::DatabaseConnection(m) => prefixed("Database connection failed: ", m),
            ArtifactError::DatabaseQuery(m) => prefixed("Database query failed: ", m),
            ArtifactError::Scan(m) => prefixed("Scan failed: ", m),
            ArtifactError::Io(e) => {
                let t = io_error_text(e);
                let s = prefixed("IO error: ", &t);
                assert("IO error: "@ =~= s@.subrange(0, "IO error: "@.len() as int));
                s
            },
            ArtifactError::Path(m) => prefixed("Path error: ", m),
        }
    }

    /// The error's description (what `Display` shows for it).
    pub fn message(&self) -> (s: String)
        ensures
            match self {
                ArtifactError::Configuration(m) => s@ == "Configuration error: "@ + m@,
                ArtifactError::DatabaseInit(m) => s@ == "Database initialization error: "@ + m@,
                ArtifactError::DatabaseConnection(m) => s@ == "Database connection error: "@ + m@,
                ArtifactError::DatabaseQuery(m) => s@ == "Database query error: "@ + m@,
                ArtifactError::Scan(m) => s@ == "Scan error: "@ + m@,
                ArtifactError::Io(_) => "IO error: "@.is_prefix_of(s@),
                ArtifactError::Path(m) => s@ == "Path error: "@ + m@,
            },
    {
        match self {
            ArtifactError::Configuration(m) => prefixed("Configuration error: ", m),
            ArtifactError::DatabaseInit(m) => prefixed("Database initialization error: ", m),
            ArtifactError::DatabaseConnection(m) => prefixed("Database connection error: ", m),
            ArtifactError::DatabaseQuery(m) => prefixed("Database query error: ", m),
            ArtifactError::Scan(m) => prefixed("Scan error: ", m),
            ArtifactError::Io(e) => {
                let t = io_error_text(e);
                let s = prefixed("IO error: ", &t);
                assert("IO error: "@ =~= s@.subrange(0, "IO error: "@.len() as int));
                s
            },
            ArtifactError::Path(m) => prefixed("Path error: ", m),
        }
    }
}

impl From<std::io::Error> for ArtifactError {
    fn from(e: std::io::Error) -> (r: Self)
    {
        ArtifactError::Io(e)
    }
}

impl vstd::std_specs::convert::FromSpecImpl<std::io::Error> for ArtifactError {
    open spec fn obeys_from_spec() -> bool {
        true
    }

    open spec fn from_spec(e: std::io::Error) -> Self {
        ArtifactError::Io(e)
    }
}

} // verus!
