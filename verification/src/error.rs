//! Errors of the pipeline front end.
use vstd::prelude::*;

verus! {

#[verifier::external_type_specification]
#[verifier::external_body]
pub struct ExIoError(std::io::Error);

#[verifier::external_type_specification]
#[verifier::external_body]
pub struct ExYamlError(serde_yaml::Error);

/// What can go wrong while reading, parsing or validating a pipeline.
#[derive(Debug)]
pub enum PipelineError {
    /// The pipeline file could not be read.
    FileRead { path: String, source: std::io::Error },
    /// The YAML text is not a pipeline.
    YamlParse(serde_yaml::Error),
    /// A field of the pipeline breaks a rule; `field` names it.
    Validation { field: String, message: String },
}

} // verus!
