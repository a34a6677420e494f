//! Library behind a command-line viewer of CI pipeline status.
//!
//! The library holds the verified core: classifying raw status strings,
//! grouping fetched jobs into stages, ordering stages and jobs by their
//! start times, deriving a stage's aggregate status, summing job
//! durations, and rendering the pipeline/stage/job hierarchy as an
//! indented text tree.  The thin binary around it performs the HTTP
//! requests and JSON decoding and hands the library plain values.

pub mod status;
pub mod style;
pub mod order;
pub mod job;
pub mod stage;
pub mod pipeline;
pub mod error;
pub mod render;
pub mod orchestrator;
