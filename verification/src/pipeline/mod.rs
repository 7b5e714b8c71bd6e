//! Pipelines: the model, its validation, the `.rustpipe` DSL and DAG scheduling.
pub mod dag;
pub mod dsl;
pub mod model;
pub mod validator;

use vstd::prelude::*;

use crate::error::PipelineError;
use crate::pipeline::dsl::{dsl_parse, dsl_pipeline, parse_dsl};
use crate::pipeline::model::Pipeline;
use crate::text::{ends_with, ends_with_spec, to_string};

verus! {

/// A pipeline file in the DSL: its path ends with `.rustpipe` (other files are YAML).
pub fn is_dsl_path(path: &str) -> (res: bool)
    ensures
        res == ends_with_spec(path@, ".rustpipe"@),
{
    ends_with(path, ".rustpipe")
}

/// Parses the text of a `.rustpipe` file; a DSL error becomes a validation
/// error of the field `dsl`.
pub fn parse_dsl_source(contents: &str) -> (res: Result<Pipeline, PipelineError>)
    ensures
        match dsl_parse(contents@) {
            Ok((name, list)) => res matches Ok(p) && dsl_pipeline(p, name, list),
            Err(m) => res matches Err(PipelineError::Validation { field, message }) && field@
                == "dsl"@ && message@ == m,
        },
{
    match parse_dsl(contents) {
        Ok(p) => Ok(p),
        Err(m) => Err(PipelineError::Validation { field: to_string("dsl"), message: m }),
    }
}

} // verus!
