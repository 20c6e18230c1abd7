//! Fine-tuning on word-level pronunciation scores.
//!
//! A scoring head pools the frame features of each word's span and regresses
//! to a pronunciation quality score; the backbone may be trained along with
//! it.

pub mod config;
pub mod head;
pub mod mixup;
pub mod plan;
pub mod prepare;
pub mod report;
pub mod run;
pub mod targets;
pub mod teacher;

pub use config::{
    scoring_input_dim_from_config, FineTuneArgs, ScoringHeadConfig, ScoringInputSource,
    ScoringPoolingMode,
};
pub use teacher::TeacherFeatureCache;
