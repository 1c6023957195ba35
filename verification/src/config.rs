//! The options of one run, handed to each stage as plain values.

use vstd::prelude::*;

verus! {

/// The read-length mode handed to the classifier.
#[derive(Debug, Clone, Copy, PartialEq, Eq, Structural)]
pub enum ReadLength {
    LongReads,
    ShortReads,
}

/// The width of the worker pool where none is configured.
pub const DEFAULT_CONCURRENT_JOBS: u32 = 8;

/// The halt threshold where none is configured.
pub const DEFAULT_HALT: u32 = 1;

/// Everything a run is configured with. Paths are kept as text.
#[derive(Debug)]
pub struct Config {
    pub query: Vec<String>,
    pub othresh: Option<u32>,
    pub pthresh: Option<u32>,
    pub read_length: ReadLength,
    pub uproc_db_dir: String,
    pub uproc_model_dir: String,
    pub annotation_dir: String,
    pub out_dir: String,
    pub num_concurrent_jobs: Option<u32>,
    pub num_halt: Option<u32>,
}

impl Config {
    /// The configured pool width, or the default.
    pub open spec fn width(&self) -> u32 {
        match self.num_concurrent_jobs {
            Some(n) => n,
            None => DEFAULT_CONCURRENT_JOBS,
        }
    }

    /// The configured halt threshold, or the default.
    pub open spec fn halt(&self) -> u32 {
        match self.num_halt {
            Some(n) => n,
            None => DEFAULT_HALT,
        }
    }

    /// How many jobs may run at once.
    pub fn concurrent_jobs(&self) -> (n: u32)
        ensures
            n == self.width(),
    {
        match self.num_concurrent_jobs {
            Some(n) => n,
            None => DEFAULT_CONCURRENT_JOBS,
        }
    }

    /// How many failed jobs the run tolerates.
    pub fn halt_threshold(&self) -> (n: u32)
        ensures
            n == self.halt(),
    {
        match self.num_halt {
            Some(n) => n,
            None => DEFAULT_HALT,
        }
    }
}

} // verus!
