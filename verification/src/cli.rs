//! Options of a run, and the rules by which the words of the command
//! line are read.

use crate::config::{Config, DepsfileType};
use crate::path::PathInfo;
use crate::text::str_eq;
use vstd::prelude::*;
use vstd::string::StringExecFns;

verus! {

/// How the services are printed.
#[derive(Debug, Clone, Copy, PartialEq, Eq, Structural)]
pub enum OutputFormat {
    Plain,
    Json,
    Yaml,
}

/// What a run is asked to do.
#[derive(Debug, PartialEq)]
pub enum Operation {
    /// Discover the services and determine which of them must be built.
    Dependencies,
    /// Show the dependencies of the service at the given path.
    Validate(String),
}

/// The options of a run.
#[derive(Debug)]
pub struct Opts {
    /// The root of the repository.
    pub target: PathInfo,
    pub config: Config,
    pub output: OutputFormat,
    pub verbose: bool,
    pub relative: bool,
    /// List every service, whatever has changed.
    pub all: bool,
    /// The kinds of marker, besides the Depsfile, that declare a service root.
    pub supported_roots: Vec<DepsfileType>,
}

/// Why the command line was rejected.
#[derive(Debug, Clone, PartialEq, Eq)]
pub enum CliError {
    /// The output format is none of `plain`, `json`, `yaml`.
    InvalidFormat,
    /// The operation, as written, is neither `dependencies` nor `validate`.
    UnknownOperation(String),
    /// `validate` was not given exactly one service path.
    MissingServicePath,
}

/// A `CliError` with its text as a sequence of characters.
pub enum CliErrorView {
    InvalidFormat,
    UnknownOperation(Seq<char>),
    MissingServicePath,
}

impl View for CliError {
    type V = CliErrorView;

    open spec fn view(&self) -> CliErrorView {
        match self {
            CliError::InvalidFormat => CliErrorView::InvalidFormat,
            CliError::UnknownOperation(word) => CliErrorView::UnknownOperation(word@),
            CliError::MissingServicePath => CliErrorView::MissingServicePath,
        }
    }
}

impl CliErrorView {
    /// What went wrong, in words.
    pub open spec fn text(self) -> Seq<char> {
        match self {
            CliErrorView::InvalidFormat => "invalid output format (supported: plain, json, yaml)"@,
            CliErrorView::UnknownOperation(word) => "unknown operation '"@ + word
                + "' [supported: validate, dependencies]"@,
            CliErrorView::MissingServicePath => "missing service path for 'validate'"@,
        }
    }
}

impl CliError {
    /// What went wrong, in words.
    pub fn describe(&self) -> (r: String)
        ensures
            r@ == self@.text(),
    {
        match self {
            CliError::InvalidFormat => {
                "invalid output format (supported: plain, json, yaml)".to_owned()
            },
            CliError::UnknownOperation(word) => {
                let mut out = "unknown operation '".to_owned();
                out.append(word.as_str());
                out.append("' [supported: validate, dependencies]");
                out
            },
            CliError::MissingServicePath => "missing service path for 'validate'".to_owned(),
        }
    }
}

/// The output format that `input` names.
pub open spec fn format_named(input: Seq<char>) -> Option<OutputFormat> {
    if input == "json"@ {
        Some(OutputFormat::Json)
    } else if input == "plain"@ {
        Some(OutputFormat::Plain)
    } else if input == "yaml"@ {
        Some(OutputFormat::Yaml)
    } else {
        None
    }
}

/// Whether `operation` is what the free words of a command line ask for:
/// no word asks for `Dependencies`, as does the word `dependencies`;
/// `validate` asks for `Validate` of the one word that follows it; any
/// other first word is rejected as an unknown operation, by name.
pub open spec fn is_operation(r: Result<Operation, CliError>, free: Seq<String>) -> bool {
    if free.len() == 0 || free[0]@ == "dependencies"@ {
        r == Ok::<Operation, CliError>(Operation::Dependencies)
    } else if free[0]@ == "validate"@ {
        if free.len() == 2 {
            r matches Ok(Operation::Validate(path)) && path@ == free[1]@
        } else {
            r == Err::<Operation, CliError>(CliError::MissingServicePath)
        }
    } else {
        r matches Err(CliError::UnknownOperation(word)) && word@ == free[0]@
    }
}

impl Opts {
    /// Whether markers of kind `filetype` declare a service root: the
    /// Depsfile always, the other kinds when they were asked for.
    pub fn is_supported(&self, filetype: &DepsfileType) -> (r: bool)
        ensures
            r == (*filetype == DepsfileType::Depsfile || self.supported_roots@.contains(*filetype)),
    {
        if *filetype == DepsfileType::Depsfile {
            return true;
        }
        let mut i: usize = 0;
        while i < self.supported_roots.len()
            invariant
                i <= self.supported_roots.len(),
                forall|j: int| 0 <= j < i ==> self.supported_roots@[j] != *filetype,
            decreases self.supported_roots.len() - i,
        {
            if self.supported_roots[i] == *filetype {
                return true;
            }
            i = i + 1;
        }
        false
    }
}

/// The output format that `input` names; any other name is rejected.
pub fn parse_format(input: &str) -> (r: Result<OutputFormat, CliError>)
    ensures
        r == match format_named(input@) {
            Some(format) => Ok::<OutputFormat, CliError>(format),
            None => Err::<OutputFormat, CliError>(CliError::InvalidFormat),
        },
{
    if str_eq(input, "json") {
        Ok(OutputFormat::Json)
    } else if str_eq(input, "plain") {
        Ok(OutputFormat::Plain)
    } else if str_eq(input, "yaml") {
        Ok(OutputFormat::Yaml)
    } else {
        Err(CliError::InvalidFormat)
    }
}

/// The operation that the free words of a command line ask for.
pub fn parse_operation(free: &Vec<String>) -> (r: Result<Operation, CliError>)
    ensures
        is_operation(r, free@),
{
    if free.len() == 0 {
        return Ok(Operation::Dependencies);
    }
    let first = free[0].as_str();
    if str_eq(first, "validate") {
        if free.len() != 2 {
            if str_eq(first, "dependencies") {
                proof {
                    reveal_strlit("validate");
                    reveal_strlit("dependencies");
                    assert("validate"@.len() != "dependencies"@.len());
                }
            }
            Err(CliError::MissingServicePath)
        } else {
            proof {
                reveal_strlit("validate");
                reveal_strlit("dependencies");
                assert("validate"@.len() != "dependencies"@.len());
            }
            Ok(Operation::Validate(free[1].clone()))
        }
    } else if str_eq(first, "dependencies") {
        Ok(Operation::Dependencies)
    } else {
        Err(CliError::UnknownOperation(free[0].clone()))
    }
}

} // verus!
