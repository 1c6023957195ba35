//! The ways in which a pipeline stage refuses its input.

use vstd::prelude::*;
use vstd::string::*;
use crate::text::{decimal, decimal_of};

verus! {

/// What is wrong with the configuration of a run.
#[derive(Debug, Clone, Copy, PartialEq, Eq, Structural)]
pub enum ConfigFault {
    /// No directory of reference databases was named.
    MissingDbDir,
    /// No directory of models was named.
    MissingModelDir,
    /// No directory of annotation files was named.
    MissingAnnotationDir,
    /// The directory of reference databases holds no database.
    NoDatabases,
}

/// A fatal condition: the stage that reports it does no work, and no later
/// stage runs.
#[derive(Debug)]
pub enum PipelineError {
    /// The list of input files is empty.
    NoInput,
    /// The run is not configured as it must be.
    Configuration(ConfigFault),
    /// More jobs failed than the halt threshold tolerates; holds the number
    /// of failed jobs.
    RunHalted(usize),
    /// A counts artifact whose name belongs to neither table type; holds the
    /// name.
    UnrecognizedArtifact(String),
    /// An annotation file that is no well-formed delimited table.
    MalformedTable,
}

/// The words in which an error is reported.
pub open spec fn message_of(e: PipelineError) -> Seq<char> {
    match e {
        PipelineError::NoInput => "No input files"@,
        PipelineError::Configuration(ConfigFault::MissingDbDir) => "Must have --uproc_db_dir"@,
        PipelineError::Configuration(ConfigFault::MissingModelDir) => "Must have --uproc_model_dir"@,
        PipelineError::Configuration(ConfigFault::MissingAnnotationDir) => "Must have --annotation_dir"@,
        PipelineError::Configuration(ConfigFault::NoDatabases) => "No reference databases found"@,
        PipelineError::RunHalted(n) => "Run halted, failed jobs: "@ + decimal_of(n as nat),
        PipelineError::UnrecognizedArtifact(name) => "Unexpected file: "@ + name@,
        PipelineError::MalformedTable => "Malformed annotation table"@,
    }
}

impl PipelineError {
    /// Says what went wrong, with the path or the number it concerns.
    pub fn message(&self) -> (text: String)
        ensures
            text@ == message_of(*self),
    {
        match self {
            PipelineError::NoInput => String::from_str("No input files"),
            PipelineError::Configuration(ConfigFault::MissingDbDir) => String::from_str(
                "Must have --uproc_db_dir",
            ),
            PipelineError::Configuration(ConfigFault::MissingModelDir) => String::from_str(
                "Must have --uproc_model_dir",
            ),
            PipelineError::Configuration(ConfigFault::MissingAnnotationDir) => String::from_str(
                "Must have --annotation_dir",
            ),
            PipelineError::Configuration(ConfigFault::NoDatabases) => String::from_str(
                "No reference databases found",
            ),
            PipelineError::RunHalted(n) => {
                let mut text = String::from_str("Run halted, failed jobs: ");
                text.append(decimal(*n as u64).as_str());
                text
            },
            PipelineError::UnrecognizedArtifact(name) => {
                let mut text = String::from_str("Unexpected file: ");
                text.append(name.as_str());
                text
            },
            PipelineError::MalformedTable => String::from_str("Malformed annotation table"),
        }
    }
}

} // verus!
