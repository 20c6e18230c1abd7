//! Evaluation of a checkpoint against human word scores.

pub mod ctc;
pub mod gop;
pub mod metrics;
pub mod ranks;
pub mod report;

pub use metrics::EvaluateArgs;
