//! Training support for a speech aligner: pronunciation dictionary and
//! transcript targets, feature framing, model dimensions, data sets and
//! batches, training and fine-tuning control, evaluation and reports.

pub mod attention;
pub mod clock;
pub mod conv_block;
pub mod dataset;
pub mod error;
pub mod evaluate;
pub mod finetune;
pub mod g2p;
pub mod grouping;
pub mod ieee;
pub mod laws;
pub mod markdown;
pub mod mfcc;
pub mod model;
pub mod order;
pub mod phoneme_map;
pub mod precompute;
pub mod se_block;
pub mod spelling;
pub mod text;
pub mod train;
pub mod ui;
