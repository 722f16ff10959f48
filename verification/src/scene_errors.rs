//! What can be wrong with a scene file, and how it is reported.
use vstd::prelude::*;
use crate::text::{decimal, push_decimal};
use vstd::string::*;

verus! {

/// A single semantic validation failure.
#[derive(Debug)]
pub enum ValidationError {
    /// A required field is absent on a specific object.
    MissingField { name: String, field: &'static str },
    /// The `shape` field contains an unrecognised value.
    UnknownShape { name: String, shape: String },
    /// A field value is outside its allowed range or format.
    InvalidValue { name: String, message: String },
    /// Two objects share the same name.
    DuplicateName { name: String },
    /// An audio file path cannot be found on disk.
    AudioFileNotFound { path: String },
    /// An end condition references an object name that does not exist.
    UnknownObjectReference { name: String },
}

/// The text content of a [`ValidationError`].
pub enum Issue {
    MissingField { name: Seq<char>, field: Seq<char> },
    UnknownShape { name: Seq<char>, shape: Seq<char> },
    InvalidValue { name: Seq<char>, message: Seq<char> },
    DuplicateName { name: Seq<char> },
    AudioFileNotFound { path: Seq<char> },
    UnknownObjectReference { name: Seq<char> },
}

impl View for ValidationError {
    type V = Issue;

    open spec fn view(&self) -> Issue {
        match self {
            ValidationError::MissingField { name, field } => Issue::MissingField { name: name@, field: field@ },
            ValidationError::UnknownShape { name, shape } => Issue::UnknownShape { name: name@, shape: shape@ },
            ValidationError::InvalidValue { name, message } => Issue::InvalidValue {
                name: name@,
                message: message@,
            },
            ValidationError::DuplicateName { name } => Issue::DuplicateName { name: name@ },
            ValidationError::AudioFileNotFound { path } => Issue::AudioFileNotFound { path: path@ },
            ValidationError::UnknownObjectReference { name } => Issue::UnknownObjectReference { name: name@ },
        }
    }
}

/// The issues of a list of validation errors, in order.
pub open spec fn issues(errors: Seq<ValidationError>) -> Seq<Issue> {
    errors.map_values(|e: ValidationError| e@)
}

/// How an issue reads.
pub open spec fn issue_text(i: Issue) -> Seq<char> {
    match i {
        Issue::MissingField { name, field } => "Object '"@ + name + "': missing required field '"@ + field
            + "'"@,
        Issue::UnknownShape { name, shape } => "Object '"@ + name + "': unknown shape type '"@ + shape + "'"@,
        Issue::InvalidValue { name, message } => "Object '"@ + name + "': "@ + message,
        Issue::DuplicateName { name } => "Duplicate object name '"@ + name + "'"@,
        Issue::AudioFileNotFound { path } => "Audio file not found: '"@ + path + "'"@,
        Issue::UnknownObjectReference { name } => "End condition references unknown object '"@ + name
            + "'"@,
    }
}

/// The first `n` issues as an indented bullet list, one per line.
pub open spec fn bullet_list(items: Seq<Issue>, n: nat) -> Seq<char>
    decreases n,
{
    if n == 0 {
        Seq::empty()
    } else if n == 1 {
        "  - "@ + issue_text(items[0])
    } else {
        bullet_list(items, (n - 1) as nat) + "\n"@ + "  - "@ + issue_text(items[n - 1])
    }
}

impl ValidationError {
    /// The error's text, as it is shown to the user.
    pub fn message(&self) -> (m: String)
        ensures
            m@ == issue_text(self@),
    {
        match self {
            ValidationError::MissingField { name, field } => {
                let mut m = String::from_str("Object '");
                m.append(name.as_str());
                m.append("': missing required field '");
                m.append(field);
                m.append("'");
                m
            },
            ValidationError::UnknownShape { name, shape } => {
                let mut m = String::from_str("Object '");
                m.append(name.as_str());
                m.append("': unknown shape type '");
                m.append(shape.as_str());
                m.append("'");
                m
            },
            ValidationError::InvalidValue { name, message } => {
                let mut m = String::from_str("Object '");
                m.append(name.as_str());
                m.append("': ");
                m.append(message.as_str());
                m
            },
            ValidationError::DuplicateName { name } => {
                let mut m = String::from_str("Duplicate object name '");
                m.append(name.as_str());
                m.append("'");
                m
            },
            ValidationError::AudioFileNotFound { path } => {
                let mut m = String::from_str("Audio file not found: '");
                m.append(path.as_str());
                m.append("'");
                m
            },
            ValidationError::UnknownObjectReference { name } => {
                let mut m = String::from_str("End condition references unknown object '");
                m.append(name.as_str());
                m.append("'");
                m
            },
        }
    }
}

/// Format a list of validation errors as an indented bullet list.
pub fn format_validation_errors(errors: &Vec<ValidationError>) -> (s: String)
    ensures
        s@ == bullet_list(issues(errors@), errors@.len()),
{
    let mut s = String::new();
    let mut i: usize = 0;
    while i < errors.len()
        invariant
            0 <= i <= errors@.len(),
            s@ == bullet_list(issues(errors@), i as nat),
        decreases errors.len() - i,
    {
        if i > 0 {
            s.append("\n");
        }
        s.append("  - ");
        let m = errors[i].message();
        s.append(m.as_str());
        proof {
            let v = issues(errors@);
            assert(v[i as int] == errors@[i as int]@);
            if i == 0 {
                assert(s@ =~= bullet_list(v, 1));
            } else {
                assert(s@ =~= bullet_list(v, (i + 1) as nat));
            }
        }
        i = i + 1;
    }
    s
}

/// Top-level error of reading a scene.
#[derive(Debug)]
pub enum ParseError {
    /// The scene file could not be read; the operating system's message.
    Io(String),
    /// The YAML is syntactically invalid.
    Syntax { line: usize, message: String },
    /// One or more semantic validation rules failed.
    Validation(Vec<ValidationError>),
    /// The file is empty or contains only whitespace.
    EmptyScene,
    /// The `version` field is present but not supported.
    UnsupportedVersion { version: String },
}

/// How a parse error reads.
pub open spec fn parse_error_text(e: ParseError) -> Seq<char> {
    match e {
        ParseError::Io(m) => "IO error reading scene file: "@ + m@,
        ParseError::Syntax { line, message } => "YAML syntax error at line "@ + decimal(line as nat) + ": "@
            + message@,
        ParseError::Validation(errors) => "Validation failed:\n"@ + bullet_list(issues(errors@), errors@.len()),
        ParseError::EmptyScene => "Empty scene file \u{2014} nothing to simulate"@,
        ParseError::UnsupportedVersion { version } => "Unsupported schema version '"@ + version@
            + "' (expected '1')"@,
    }
}

impl ParseError {
    /// The error's text, as it is shown to the user.
    pub fn message(&self) -> (m: String)
        ensures
            m@ == parse_error_text(*self),
    {
        match self {
            ParseError::Io(msg) => {
                let mut m = String::from_str("IO error reading scene file: ");
                m.append(msg.as_str());
                m
            },
            ParseError::Syntax { line, message } => {
                let mut m = String::from_str("YAML syntax error at line ");
                push_decimal(&mut m, *line as u64);
                m.append(": ");
                m.append(message.as_str());
                m
            },
            ParseError::Validation(errors) => {
                let mut m = String::from_str("Validation failed:\n");
                let list = format_validation_errors(errors);
                m.append(list.as_str());
                m
            },
            ParseError::EmptyScene => String::from_str("Empty scene file \u{2014} nothing to simulate"),
            ParseError::UnsupportedVersion { version } => {
                let mut m = String::from_str("Unsupported schema version '");
                m.append(version.as_str());
                m.append("' (expected '1')");
                m
            },
        }
    }
}

} // verus!
