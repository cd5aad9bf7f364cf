use monodeps::cli::{parse_format, parse_operation, CliError, Operation, Opts, OutputFormat};
use monodeps::config::{Config, DepsfileType};
use monodeps::path::PathInfo;

fn args(additional_args: Vec<&str>) -> Result<Operation, CliError> {
    let free: Vec<String> = additional_args.iter().map(|val| val.to_string()).collect();

    parse_operation(&free)
}

#[test]
fn empty_args() {
    let operation = args(vec![]).unwrap();

    assert_eq!(Operation::Dependencies, operation);
}

#[test]
fn operation_dependencies() {
    let operation = args(vec!["dependencies"]).unwrap();

    assert_eq!(Operation::Dependencies, operation);
}

#[test]
fn operation_validate() {
    let operation = args(vec!["validate", "something"]).unwrap();

    assert_eq!(Operation::Validate("something".to_string()), operation);
}

#[test]
fn operation_validate_error() {
    let result = args(vec!["validate"]);

    assert!(result.is_err());
    assert_eq!(result.unwrap_err(), CliError::MissingServicePath);
}

#[test]
fn operation_unknown() {
    let result = args(vec!["whatever"]);

    assert!(result.is_err());
    assert_eq!(
        result.unwrap_err(),
        CliError::UnknownOperation("whatever".to_string())
    );
    assert_eq!(
        CliError::UnknownOperation("whatever".to_string()).describe(),
        "unknown operation 'whatever' [supported: validate, dependencies]"
    );
    assert_eq!(
        CliError::MissingServicePath.describe(),
        "missing service path for 'validate'"
    );
}

#[test]
fn operation_validate_with_too_many_paths() {
    assert_eq!(
        args(vec!["validate", "a", "b"]).unwrap_err(),
        CliError::MissingServicePath
    );
}

#[test]
fn operation_dependencies_ignores_further_words() {
    assert_eq!(
        args(vec!["dependencies", "extra"]).unwrap(),
        Operation::Dependencies
    );
}

#[test]
fn output_formats() {
    assert_eq!(parse_format("plain"), Ok(OutputFormat::Plain));
    assert_eq!(parse_format("json"), Ok(OutputFormat::Json));
    assert_eq!(parse_format("yaml"), Ok(OutputFormat::Yaml));
    assert_eq!(parse_format("xml"), Err(CliError::InvalidFormat));
    assert_eq!(parse_format("JSON"), Err(CliError::InvalidFormat));
    assert_eq!(
        CliError::InvalidFormat.describe(),
        "invalid output format (supported: plain, json, yaml)"
    );
}

#[test]
fn supported_markers() {
    let opts = Opts {
        target: PathInfo::new("/repo", "").unwrap(),
        config: Config::default(),
        output: OutputFormat::Plain,
        verbose: false,
        relative: false,
        all: false,
        supported_roots: vec![DepsfileType::Makefile],
    };

    assert_eq!(opts.is_supported(&DepsfileType::Depsfile), true);
    assert_eq!(opts.is_supported(&DepsfileType::Makefile), true);
    assert_eq!(opts.is_supported(&DepsfileType::Justfile), false);
    assert_eq!(opts.is_supported(&DepsfileType::Buildfile), false);
}
