//! Turns free-form execution-log lines of an ETL orchestration engine into a
//! hierarchical execution trace (packages holding nested tasks with start and
//! end timestamps), and aggregates leaf-task durations across files into a
//! ranked report of where the time went.

pub mod aggregate;
pub mod model;
pub mod pipeline;
pub mod reader;
pub mod text;
pub mod timestamp;
