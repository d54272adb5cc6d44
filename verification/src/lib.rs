pub mod bench;
pub mod cli;
pub mod error;
pub mod model;
pub mod report;
pub mod ssh;
pub mod stats;
pub mod target;
pub mod text;
