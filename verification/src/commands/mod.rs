//! Commands: the stages of a pipeline.
pub mod constants;
pub mod sum;
pub mod uniq;
