//! Errors of schema loading: YAML syntax, validation, file access and include cycles.
use vstd::prelude::*;
use crate::text::{decimal, u64_to_decimal};

verus! {

/// A 1-based position in a schema source.
#[derive(Debug, Clone, Copy, PartialEq, Eq, Structural)]
pub struct SchemaLocation {
    pub line: usize,
    pub column: usize,
}

/// Why a schema could not be loaded.
#[derive(Debug)]
pub enum SchemaError {
    Yaml { message: String, location: Option<SchemaLocation> },
    Validation { message: String, path: Option<String>, location: Option<SchemaLocation> },
    Io { path: String, source: String },
    IncludeCycle { cycle: String },
}

/// `" at line L, column C"`, or nothing without a location.
pub open spec fn location_suffix(location: Option<SchemaLocation>) -> Seq<char> {
    match location {
        Some(l) => " at line "@ + decimal(l.line as nat) + ", column "@ + decimal(l.column as nat),
        None => Seq::empty(),
    }
}

/// `" in `PATH`"`, or nothing without a path.
pub open spec fn path_suffix(path: Option<String>) -> Seq<char> {
    match path {
        Some(p) => " in `"@ + p@ + "`"@,
        None => Seq::empty(),
    }
}

/// The message of a schema error.
pub open spec fn schema_error_text(e: SchemaError) -> Seq<char> {
    match e {
        SchemaError::Yaml { message, location } =>
            "YAML parse error"@ + location_suffix(location) + ": "@ + message@,
        SchemaError::Validation { message, path, location } =>
            "Schema validation error"@ + path_suffix(path) + location_suffix(location) + ": "@ + message@,
        SchemaError::Io { path, source } =>
            "Failed to read schema file `"@ + path@ + "`: "@ + source@,
        SchemaError::IncludeCycle { cycle } => "Schema include cycle detected: "@ + cycle@,
    }
}

fn append_location_suffix(s: &mut String, location: Option<SchemaLocation>)
    ensures
        final(s)@ == old(s)@ + location_suffix(location),
{
    if let Some(l) = location {
        s.append(" at line ");
        let line = u64_to_decimal(l.line as u64);
        s.append(line.as_str());
        s.append(", column ");
        let column = u64_to_decimal(l.column as u64);
        s.append(column.as_str());
    } else {
        assert(old(s)@ + Seq::<char>::empty() =~= old(s)@);
    }
}

/// What attaching `path` to an error gives: a validation error without a path gets it; any
/// other error is unchanged.
pub open spec fn spec_with_path(e: SchemaError, path: String) -> SchemaError {
    match e {
        SchemaError::Validation { message, path: None, location } =>
            SchemaError::Validation { message, path: Some(path), location },
        other => other,
    }
}

/// Attaching a path to an error that already has one, or that is no validation error,
/// changes nothing: the first path attached stays.
pub proof fn law_with_path_keeps_first(e: SchemaError, p: String, q: String)
    ensures
        spec_with_path(spec_with_path(e, p), q) == spec_with_path(e, p),
{
}

impl SchemaError {
    /// A YAML error with the given message and position.
    pub fn yaml(message: String, location: Option<SchemaLocation>) -> (e: SchemaError)
        ensures
            e == (SchemaError::Yaml { message, location }),
    {
        SchemaError::Yaml { message, location }
    }

    /// A validation error with the given message and neither path nor position.
    pub fn validation(message: String) -> (e: SchemaError)
        ensures
            e == (SchemaError::Validation { message, path: None, location: None }),
    {
        SchemaError::Validation { message, path: None, location: None }
    }

    /// Attaches `path` to a validation error that has none; any other error is returned as is.
    pub fn with_path(self, path: String) -> (e: SchemaError)
        ensures
            e == spec_with_path(self, path),
    {
        match self {
            SchemaError::Validation { message, path: None, location } =>
                SchemaError::Validation { message, path: Some(path), location },
            other => other,
        }
    }

    /// The error's message.
    pub fn to_string(&self) -> (s: String)
        ensures
            s@ == schema_error_text(*self),
    {
        match self {
            SchemaError::Yaml { message, location } => {
                let mut s = String::from_str("YAML parse error");
                append_location_suffix(&mut s, *location);
                s.append(": ");
                s.append(message.as_str());
                s
            },
            SchemaError::Validation { message, path, location } => {
                let mut s = String::from_str("Schema validation error");
                if let Some(p) = path {
                    s.append(" in `");
                    s.append(p.as_str());
                    s.append("`");
                } else {
                    assert(s@ + Seq::<char>::empty() =~= s@);
                }
                append_location_suffix(&mut s, *location);
                s.append(": ");
                s.append(message.as_str());
                s
            },
            SchemaError::Io { path, source } => {
                let mut s = String::from_str("Failed to read schema file `");
                s.append(path.as_str());
                s.append("`: ");
                s.append(source.as_str());
                s
            },
            SchemaError::IncludeCycle { cycle } => {
                let mut s = String::from_str("Schema include cycle detected: ");
                s.append(cycle.as_str());
                s
            },
        }
    }
}

} // verus!
