//! What the operations of the library are for, stated of their results alone.

pub mod alignment;
pub mod batches;
pub mod features;
pub mod files;
pub mod finetuning;
pub mod notations;
pub mod numbers;
pub mod pronunciations;
pub mod reports;
pub mod resolution;
pub mod statistics;
pub mod texts;
pub mod training;
pub mod transcripts;
pub mod words;
