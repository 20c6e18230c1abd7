//! Arguments of a fine-tuning run, what they exclude, and the configuration of
//! the scoring head that they lead to.

use vstd::prelude::*;

use crate::error::{Error, ErrorView, Result};
use crate::ieee::{Real32, Real64, EPSILON_32, ONE_32};
use crate::mfcc::FeatureMode;
use crate::model::SpeechAlignerConfig;

verus! {

/// Default width of the scoring head's hidden layer.
pub const SCORING_HIDDEN_DIM: usize = 256;

/// Width of a teacher feature frame.
pub const DISTILL_DIM: usize = 1024;

/// Bits of 0.2: observation noise of the balanced loss.
pub const DEFAULT_BALANCED_MSE_NOISE_SIGMA: u32 = 0x3e4c_cccd;

/// Bits of 0.15: temperature of the rank regularization.
pub const DEFAULT_RANK_SIMILARITY_TAU: u32 = 0x3e19_999a;

/// Number of ordinal classes.
pub const ORDINAL_CLASSES: usize = 5;

pub open spec fn zero32() -> Real32 {
    Real32 { bits: 0 }
}

pub open spec fn one32() -> Real32 {
    Real32 { bits: ONE_32 }
}

pub open spec fn epsilon32() -> Real32 {
    Real32 { bits: EPSILON_32 }
}

/// The boundaries between the ordinal classes: 0.2, 0.5, 0.7 and 0.9.
pub open spec fn ordinal_boundaries() -> Seq<Real32> {
    seq![
        Real32 { bits: 0x3e4c_cccd },
        Real32 { bits: 0x3f00_0000 },
        Real32 { bits: 0x3f33_3333 },
        Real32 { bits: 0x3f66_6666 },
    ]
}

/// The score that each ordinal class stands for: 0.1, 0.4, 0.65, 0.85 and 1.
pub open spec fn ordinal_bin_centers() -> Seq<Real32> {
    seq![
        Real32 { bits: 0x3dcc_cccd },
        Real32 { bits: 0x3ecc_cccd },
        Real32 { bits: 0x3f26_6666 },
        Real32 { bits: 0x3f59_999a },
        Real32 { bits: 0x3f80_0000 },
    ]
}

pub fn default_ordinal_boundaries() -> (r: Vec<Real32>)
    ensures
        r@ == ordinal_boundaries(),
{
    let r: Vec<Real32> = vec![
        Real32 { bits: 0x3e4c_cccd },
        Real32 { bits: 0x3f00_0000 },
        Real32 { bits: 0x3f33_3333 },
        Real32 { bits: 0x3f66_6666 },
    ];
    assert(r@ =~= ordinal_boundaries());
    r
}

pub fn default_ordinal_bin_centers() -> (r: Vec<Real32>)
    ensures
        r@ == ordinal_bin_centers(),
{
    let r: Vec<Real32> = vec![
        Real32 { bits: 0x3dcc_cccd },
        Real32 { bits: 0x3ecc_cccd },
        Real32 { bits: 0x3f26_6666 },
        Real32 { bits: 0x3f59_999a },
        Real32 { bits: 0x3f80_0000 },
    ];
    assert(r@ =~= ordinal_bin_centers());
    r
}

/// Where the scoring head's input comes from.
#[derive(Debug, Clone, Copy, PartialEq, Eq, Structural)]
pub enum ScoringInputSource {
    Backbone,
    TeacherCache,
}

impl Default for ScoringInputSource {
    fn default() -> (r: Self)
        ensures
            r == ScoringInputSource::Backbone,
    {
        ScoringInputSource::Backbone
    }
}

impl ScoringInputSource {
    pub open spec fn name(self) -> Seq<char> {
        match self {
            ScoringInputSource::Backbone => "backbone"@,
            ScoringInputSource::TeacherCache => "teacher_cache"@,
        }
    }

    pub fn label(self) -> (r: &'static str)
        ensures
            r@ == self.name(),
    {
        match self {
            ScoringInputSource::Backbone => "backbone",
            ScoringInputSource::TeacherCache => "teacher_cache",
        }
    }
}

/// How the frames of a word become one feature vector.
#[derive(Debug, Clone, Copy, PartialEq, Eq, Structural)]
pub enum ScoringPoolingMode {
    Mean,
    Attention,
}

impl Default for ScoringPoolingMode {
    fn default() -> (r: Self)
        ensures
            r == ScoringPoolingMode::Mean,
    {
        ScoringPoolingMode::Mean
    }
}

impl ScoringPoolingMode {
    pub open spec fn name(self) -> Seq<char> {
        match self {
            ScoringPoolingMode::Mean => "Mean"@,
            ScoringPoolingMode::Attention => "Attention"@,
        }
    }

    /// The name of the mode, as reports write it.
    pub fn label(self) -> (r: &'static str)
        ensures
            r@ == self.name(),
    {
        match self {
            ScoringPoolingMode::Mean => "Mean",
            ScoringPoolingMode::Attention => "Attention",
        }
    }
}

/// Configuration of a scoring head, kept beside its checkpoint.
#[derive(Debug)]
pub struct ScoringHeadConfig {
    pub feature_mode: FeatureMode,
    pub scoring_input_source: ScoringInputSource,
    /// Input width; 0 where the head's input source decides.
    pub scoring_input_dim: usize,
    pub ordinal_loss: bool,
    pub ordinal_softmax_loss: bool,
    pub balanced_mse: bool,
    pub pooling_mode: ScoringPoolingMode,
    pub hidden_dim: usize,
    pub output_dim: usize,
    pub ordinal_boundaries: Vec<Real32>,
    pub ordinal_bin_centers: Vec<Real32>,
    pub balanced_mse_noise_sigma: Real32,
    pub rank_regularization_weight: Real32,
    pub rank_similarity_tau: Real32,
}

impl Default for ScoringHeadConfig {
    fn default() -> (r: Self)
        ensures
            r.feature_mode == FeatureMode::Mfcc39,
            r.scoring_input_source == ScoringInputSource::Backbone,
            r.scoring_input_dim == 0,
            !r.ordinal_loss,
            !r.ordinal_softmax_loss,
            !r.balanced_mse,
            r.pooling_mode == ScoringPoolingMode::Mean,
            r.hidden_dim == SCORING_HIDDEN_DIM,
            r.output_dim == 1,
            r.ordinal_boundaries@ == ordinal_boundaries(),
            r.ordinal_bin_centers@ == ordinal_bin_centers(),
            r.balanced_mse_noise_sigma.bits == DEFAULT_BALANCED_MSE_NOISE_SIGMA,
            r.rank_regularization_weight == zero32(),
            r.rank_similarity_tau.bits == DEFAULT_RANK_SIMILARITY_TAU,
    {
        ScoringHeadConfig {
            feature_mode: FeatureMode::Mfcc39,
            scoring_input_source: ScoringInputSource::Backbone,
            scoring_input_dim: 0,
            ordinal_loss: false,
            ordinal_softmax_loss: false,
            balanced_mse: false,
            pooling_mode: ScoringPoolingMode::Mean,
            hidden_dim: SCORING_HIDDEN_DIM,
            output_dim: 1,
            ordinal_boundaries: default_ordinal_boundaries(),
            ordinal_bin_centers: default_ordinal_bin_centers(),
            balanced_mse_noise_sigma: Real32 { bits: DEFAULT_BALANCED_MSE_NOISE_SIGMA },
            rank_regularization_weight: Real32 { bits: 0 },
            rank_similarity_tau: Real32 { bits: DEFAULT_RANK_SIMILARITY_TAU },
        }
    }
}

/// Arguments of a fine-tuning run.
pub struct FineTuneArgs {
    /// Path to the base checkpoint (for example a pre-training checkpoint).
    /// Omit when `fresh_init` is enabled.
    pub checkpoint: Option<String>,
    /// Path to the training set's JSON.
    pub dataset: String,
    /// Root directory for resolving audio paths.
    pub data_root: String,
    /// Input feature representation expected by the checkpoint.
    pub feature_mode: FeatureMode,
    /// Start from a freshly initialized backbone instead of loading a base
    /// checkpoint.
    pub fresh_init: bool,
    /// Number of fine-tuning epochs.
    pub epochs: usize,
    /// Learning rate.
    pub learning_rate: Real64,
    /// CTC loss weight from zero to one.
    pub ctc_weight: Real32,
    /// Output checkpoint directory.
    pub checkpoint_dir: String,
    /// Maximum number of word samples to use.
    pub max_samples: Option<usize>,
    /// Repeat words with `human_score_raw < oversample_below` this many times.
    /// 0 or 1 = no oversampling.
    pub oversample_factor: usize,
    /// Score threshold for oversampling (raw 0-10 scale).
    pub oversample_below: i32,
    /// Weight the squared error of a word by the inverse frequency of its
    /// score, so that every score level contributes equally.
    pub weighted_loss: bool,
    /// Run holdout evaluation every N epochs. 0 = disabled.
    pub eval_interval: usize,
    /// Path to the holdout JSON for inline evaluation.
    pub holdout: Option<String>,
    /// Mini-batch size for training.
    pub batch_size: usize,
    /// Focal loss exponent; zero for the standard squared error.
    pub focal_gamma: Real32,
    /// Ordinal cross-entropy by thresholds instead of regression.
    pub ordinal_loss: bool,
    /// Softmax ordinal cross-entropy instead of regression.
    pub ordinal_softmax_loss: bool,
    /// Balanced squared error instead of the plain one.
    pub balanced_mse: bool,
    /// Observation noise of the balanced squared error.
    pub balanced_mse_noise_sigma: Real32,
    /// Effective-number score balancing on the regression loss.
    pub score_balanced_loss: bool,
    /// Beta parameter for effective-number score balancing.
    pub score_balance_beta: Real32,
    /// Feature-space mixup strength for low-score words; zero disables it.
    pub feature_mixup_alpha: Real32,
    /// Only apply feature mixup to words with raw score at or below this.
    pub feature_mixup_below: i32,
    /// Epochs of linear warmup before cosine decay. 0 = flat learning rate.
    pub warmup_epochs: usize,
    /// Train only the scoring head.
    pub freeze_backbone: bool,
    /// Scoring head hidden dimension.
    pub scoring_hidden: usize,
    /// Weight of the rank regularization; zero disables it.
    pub rank_regularization_weight: Real32,
    /// Target-similarity temperature of the rank regularization.
    pub rank_similarity_tau: Real32,
    /// Weight of the pairwise ranking loss.
    pub pairwise_ranking_weight: Real32,
    /// Margin of the pairwise ranking loss.
    pub pairwise_ranking_margin: Real32,
    /// Weight of the triplet ranking loss.
    pub triplet_ranking_weight: Real32,
    /// Margin of the triplet ranking loss.
    pub triplet_ranking_margin: Real32,
    /// Word-span pooling mode for the scoring head.
    pub pooling_mode: ScoringPoolingMode,
    /// Directory of cached teacher features.
    pub distillation_features: Option<String>,
    /// Weight of the feature-matching loss.
    pub distillation_weight: Real32,
    /// Score from the teacher features instead of the backbone's.
    pub teacher_as_input: bool,
}

// ---------------------------------------------------------------------------
// Validation
// ---------------------------------------------------------------------------

/// `from <= x <= to`.
pub open spec fn within(x: Real32, from: Real32, to: Real32) -> bool {
    from.at_most(x) && x.at_most(to)
}

/// The first thing that is wrong with the arguments.
pub open spec fn first_problem(args: FineTuneArgs) -> Option<Seq<char>> {
    let focal = epsilon32().less(args.focal_gamma);
    if !within(args.ctc_weight, zero32(), one32()) {
        Some("ctc_weight must be within 0.0..=1.0"@)
    } else if args.ordinal_loss && args.ordinal_softmax_loss {
        Some("ordinal_loss and ordinal_softmax_loss are mutually exclusive"@)
    } else if args.ordinal_loss && args.balanced_mse {
        Some("ordinal_loss and balanced_mse are mutually exclusive"@)
    } else if args.ordinal_softmax_loss && args.balanced_mse {
        Some("ordinal_softmax_loss and balanced_mse are mutually exclusive"@)
    } else if args.score_balanced_loss && args.balanced_mse {
        Some("score_balanced_loss and balanced_mse are mutually exclusive"@)
    } else if args.score_balanced_loss && args.ordinal_loss {
        Some("score_balanced_loss and ordinal_loss are mutually exclusive"@)
    } else if args.score_balanced_loss && args.ordinal_softmax_loss {
        Some("score_balanced_loss and ordinal_softmax_loss are mutually exclusive"@)
    } else if args.ordinal_loss && focal {
        Some("focal_gamma is not supported with ordinal_loss"@)
    } else if args.ordinal_softmax_loss && focal {
        Some("focal_gamma is not supported with ordinal_softmax_loss"@)
    } else if args.balanced_mse && focal {
        Some("focal_gamma is not supported with balanced_mse"@)
    } else if args.balanced_mse && args.weighted_loss {
        Some("weighted_loss is not supported with balanced_mse"@)
    } else if args.score_balanced_loss && args.weighted_loss {
        Some("weighted_loss is not supported with score_balanced_loss"@)
    } else if args.balanced_mse_noise_sigma.at_most(zero32()) {
        Some("balanced_mse_noise_sigma must be > 0"@)
    } else if !(zero32().at_most(args.score_balance_beta) && args.score_balance_beta.less(
        one32(),
    )) {
        Some("score_balance_beta must be within 0.0..1.0"@)
    } else if !within(args.feature_mixup_alpha, zero32(), one32()) {
        Some("feature_mixup_alpha must be within 0.0..=1.0"@)
    } else if epsilon32().less(args.feature_mixup_alpha) && (args.ordinal_loss
        || args.ordinal_softmax_loss || args.balanced_mse) {
        Some("feature_mixup_alpha is only supported with regression-style scoring losses"@)
    } else if args.rank_regularization_weight.less(zero32()) {
        Some("rank_regularization_weight must be >= 0"@)
    } else if args.rank_similarity_tau.at_most(zero32()) {
        Some("rank_similarity_tau must be > 0"@)
    } else if args.pairwise_ranking_weight.less(zero32()) {
        Some("pairwise_ranking_weight must be >= 0"@)
    } else if args.triplet_ranking_weight.less(zero32()) {
        Some("triplet_ranking_weight must be >= 0"@)
    } else if args.pairwise_ranking_margin.at_most(zero32()) {
        Some("pairwise_ranking_margin must be > 0"@)
    } else if args.triplet_ranking_margin.at_most(zero32()) {
        Some("triplet_ranking_margin must be > 0"@)
    } else {
        None
    }
}

fn is_within(x: Real32, from: Real32, to: Real32) -> (r: bool)
    ensures
        r == within(x, from, to),
{
    from.le(x) && x.le(to)
}

fn find_problem(args: &FineTuneArgs) -> (r: Option<&'static str>)
    ensures
        match r {
            Some(msg) => first_problem(*args) == Some(msg@),
            None => first_problem(*args) is None,
        },
{
    let zero = Real32 { bits: 0 };
    let one = Real32 { bits: ONE_32 };
    let epsilon = Real32 { bits: EPSILON_32 };
    let focal = epsilon.lt(args.focal_gamma);
    if !is_within(args.ctc_weight, zero, one) {
        Some("ctc_weight must be within 0.0..=1.0")
    } else if args.ordinal_loss && args.ordinal_softmax_loss {
        Some("ordinal_loss and ordinal_softmax_loss are mutually exclusive")
    } else if args.ordinal_loss && args.balanced_mse {
        Some("ordinal_loss and balanced_mse are mutually exclusive")
    } else if args.ordinal_softmax_loss && args.balanced_mse {
        Some("ordinal_softmax_loss and balanced_mse are mutually exclusive")
    } else if args.score_balanced_loss && args.balanced_mse {
        Some("score_balanced_loss and balanced_mse are mutually exclusive")
    } else if args.score_balanced_loss && args.ordinal_loss {
        Some("score_balanced_loss and ordinal_loss are mutually exclusive")
    } else if args.score_balanced_loss && args.ordinal_softmax_loss {
        Some("score_balanced_loss and ordinal_softmax_loss are mutually exclusive")
    } else if args.ordinal_loss && focal {
        Some("focal_gamma is not supported with ordinal_loss")
    } else if args.ordinal_softmax_loss && focal {
        Some("focal_gamma is not supported with ordinal_softmax_loss")
    } else if args.balanced_mse && focal {
        Some("focal_gamma is not supported with balanced_mse")
    } else if args.balanced_mse && args.weighted_loss {
        Some("weighted_loss is not supported with balanced_mse")
    } else if args.score_balanced_loss && args.weighted_loss {
        Some("weighted_loss is not supported with score_balanced_loss")
    } else if args.balanced_mse_noise_sigma.le(zero) {
        Some("balanced_mse_noise_sigma must be > 0")
    } else if !(zero.le(args.score_balance_beta) && args.score_balance_beta.lt(one)) {
        Some("score_balance_beta must be within 0.0..1.0")
    } else if !is_within(args.feature_mixup_alpha, zero, one) {
        Some("feature_mixup_alpha must be within 0.0..=1.0")
    } else if epsilon.lt(args.feature_mixup_alpha) && (args.ordinal_loss
        || args.ordinal_softmax_loss || args.balanced_mse) {
        Some("feature_mixup_alpha is only supported with regression-style scoring losses")
    } else if args.rank_regularization_weight.lt(zero) {
        Some("rank_regularization_weight must be >= 0")
    } else if args.rank_similarity_tau.le(zero) {
        Some("rank_similarity_tau must be > 0")
    } else if args.pairwise_ranking_weight.lt(zero) {
        Some("pairwise_ranking_weight must be >= 0")
    } else if args.triplet_ranking_weight.lt(zero) {
        Some("triplet_ranking_weight must be >= 0")
    } else if args.pairwise_ranking_margin.le(zero) {
        Some("pairwise_ranking_margin must be > 0")
    } else if args.triplet_ranking_margin.le(zero) {
        Some("triplet_ranking_margin must be > 0")
    } else {
        None
    }
}

/// Refuses arguments that are out of range or exclude each other.
pub fn validate_finetune(args: &FineTuneArgs) -> (r: Result<()>)
    ensures
        match r {
            Ok(_) => first_problem(*args) is None,
            Err(e) => first_problem(*args) is Some && e@ == ErrorView::Config(
                first_problem(*args)->0,
            ),
        },
{
    match find_problem(args) {
        Some(msg) => Err(Error::config(msg)),
        None => Ok(()),
    }
}

/// Refuses a run without a base model, and one that scores from teacher
/// features without having any.
pub fn check_sources(args: &FineTuneArgs) -> (r: Result<()>)
    ensures
        match r {
            Ok(_) => (args.fresh_init || args.checkpoint is Some) && (args.teacher_as_input
                ==> args.distillation_features is Some),
            Err(e) => e@ == if !args.fresh_init && args.checkpoint is None {
                ErrorView::Config("--checkpoint is required unless --fresh-init is set"@)
            } else {
                ErrorView::Config("--teacher-as-input requires --distillation-features"@)
            } && ((!args.fresh_init && args.checkpoint is None) || (args.teacher_as_input
                && args.distillation_features is None)),
        },
{
    if !args.fresh_init && args.checkpoint.is_none() {
        return Err(Error::config("--checkpoint is required unless --fresh-init is set"));
    }
    if args.teacher_as_input && args.distillation_features.is_none() {
        return Err(Error::config("--teacher-as-input requires --distillation-features"));
    }
    Ok(())
}

/// Valid arguments choose at most one scoring loss, and no focal weighting or
/// mixup with a loss that does not support it.
pub proof fn law_valid_args_choose_one_loss(args: FineTuneArgs)
    requires
        first_problem(args) is None,
    ensures
        !(args.ordinal_loss && args.ordinal_softmax_loss),
        !(args.ordinal_loss && args.balanced_mse),
        !(args.ordinal_loss && args.score_balanced_loss),
        !(args.ordinal_softmax_loss && args.balanced_mse),
        !(args.ordinal_softmax_loss && args.score_balanced_loss),
        !(args.balanced_mse && args.score_balanced_loss),
        args.weighted_loss ==> !args.balanced_mse && !args.score_balanced_loss,
        epsilon32().less(args.focal_gamma) ==> !args.ordinal_loss && !args.ordinal_softmax_loss
            && !args.balanced_mse,
        epsilon32().less(args.feature_mixup_alpha) ==> !args.ordinal_loss
            && !args.ordinal_softmax_loss && !args.balanced_mse,
{
}

// ---------------------------------------------------------------------------
// What the arguments lead to
// ---------------------------------------------------------------------------

pub open spec fn loss_mode(args: FineTuneArgs) -> Seq<char> {
    if args.ordinal_softmax_loss {
        "ordinal_softmax"@
    } else if args.ordinal_loss {
        "ordinal"@
    } else if args.balanced_mse {
        "balanced_mse"@
    } else if args.score_balanced_loss {
        "score_balanced_regression"@
    } else {
        "regression"@
    }
}

/// The name of the scoring loss.
pub fn scoring_loss_mode(args: &FineTuneArgs) -> (r: &'static str)
    ensures
        r@ == loss_mode(*args),
{
    if args.ordinal_softmax_loss {
        "ordinal_softmax"
    } else if args.ordinal_loss {
        "ordinal"
    } else if args.balanced_mse {
        "balanced_mse"
    } else if args.score_balanced_loss {
        "score_balanced_regression"
    } else {
        "regression"
    }
}

/// The scoring loss of a batch.
#[derive(Debug, Clone, Copy, PartialEq, Eq, Structural)]
pub enum ScoringLoss {
    Ordinal,
    OrdinalSoftmax,
    BalancedMse,
    /// Squared error with the words' weights.
    Weighted,
    /// Squared error with the words' weights and focal weighting.
    Focal,
}

/// Which loss is taken of a batch.
pub fn scoring_loss(args: &FineTuneArgs) -> (r: ScoringLoss)
    ensures
        r == if args.ordinal_loss {
            ScoringLoss::Ordinal
        } else if args.ordinal_softmax_loss {
            ScoringLoss::OrdinalSoftmax
        } else if args.balanced_mse {
            ScoringLoss::BalancedMse
        } else if !args.score_balanced_loss && epsilon32().less(args.focal_gamma) {
            ScoringLoss::Focal
        } else {
            ScoringLoss::Weighted
        },
{
    if args.ordinal_loss {
        ScoringLoss::Ordinal
    } else if args.ordinal_softmax_loss {
        ScoringLoss::OrdinalSoftmax
    } else if args.balanced_mse {
        ScoringLoss::BalancedMse
    } else if !args.score_balanced_loss && Real32::new(EPSILON_32).lt(args.focal_gamma) {
        ScoringLoss::Focal
    } else {
        ScoringLoss::Weighted
    }
}

/// How logits become scores.
#[derive(Debug, Clone, Copy, PartialEq, Eq, Structural)]
pub enum ScorePrediction {
    /// The expected class center under a softmax.
    SoftmaxExpectation,
    /// The expected class center under cumulative thresholds.
    ThresholdExpectation,
    Sigmoid,
}

/// How the scoring head's logits become scores.
pub fn score_prediction(config: &ScoringHeadConfig) -> (r: ScorePrediction)
    ensures
        r == if config.ordinal_softmax_loss {
            ScorePrediction::SoftmaxExpectation
        } else if config.ordinal_loss {
            ScorePrediction::ThresholdExpectation
        } else {
            ScorePrediction::Sigmoid
        },
{
    if config.ordinal_softmax_loss {
        ScorePrediction::SoftmaxExpectation
    } else if config.ordinal_loss {
        ScorePrediction::ThresholdExpectation
    } else {
        ScorePrediction::Sigmoid
    }
}

pub open spec fn output_width(args: FineTuneArgs) -> usize {
    if args.ordinal_softmax_loss {
        ORDINAL_CLASSES
    } else {
        1
    }
}

/// Output width of the scoring head.
pub fn scoring_head_output_dim(args: &FineTuneArgs) -> (r: usize)
    ensures
        r == output_width(*args),
{
    if args.ordinal_softmax_loss {
        ORDINAL_CLASSES
    } else {
        1
    }
}

pub open spec fn saved_output_width(config: ScoringHeadConfig) -> usize {
    if config.output_dim > 0 {
        config.output_dim
    } else if config.ordinal_softmax_loss {
        ORDINAL_CLASSES
    } else {
        1
    }
}

/// Output width of a saved scoring head.
pub fn scoring_head_output_dim_from_config(config: &ScoringHeadConfig) -> (r: usize)
    ensures
        r == saved_output_width(*config),
{
    if config.output_dim > 0 {
        config.output_dim
    } else if config.ordinal_softmax_loss {
        ORDINAL_CLASSES
    } else {
        1
    }
}

pub open spec fn hidden_in_use(args: FineTuneArgs) -> usize {
    if args.scoring_hidden > 0 {
        args.scoring_hidden
    } else {
        SCORING_HIDDEN_DIM
    }
}

/// Hidden width of the scoring head: the default where none is asked for.
pub fn hidden_width(args: &FineTuneArgs) -> (r: usize)
    ensures
        r == hidden_in_use(*args),
        r > 0,
{
    if args.scoring_hidden > 0 {
        args.scoring_hidden
    } else {
        SCORING_HIDDEN_DIM
    }
}

pub open spec fn input_source(args: FineTuneArgs) -> ScoringInputSource {
    if args.teacher_as_input {
        ScoringInputSource::TeacherCache
    } else {
        ScoringInputSource::Backbone
    }
}

pub fn scoring_input_source_from_args(args: &FineTuneArgs) -> (r: ScoringInputSource)
    ensures
        r == input_source(*args),
{
    if args.teacher_as_input {
        ScoringInputSource::TeacherCache
    } else {
        ScoringInputSource::Backbone
    }
}

pub open spec fn ctc_weight_in_effect(args: FineTuneArgs) -> Real32 {
    if args.teacher_as_input {
        zero32()
    } else {
        args.ctc_weight
    }
}

/// The CTC weight that is used: none with teacher features as input.
pub fn effective_ctc_weight(args: &FineTuneArgs) -> (r: Real32)
    ensures
        r == ctc_weight_in_effect(*args),
{
    if args.teacher_as_input {
        Real32 { bits: 0 }
    } else {
        args.ctc_weight
    }
}

/// Whether the backbone stays as it is: always with teacher features as input.
pub fn effective_freeze_backbone(args: &FineTuneArgs) -> (r: bool)
    ensures
        r == (args.teacher_as_input || args.freeze_backbone),
{
    args.teacher_as_input || args.freeze_backbone
}

pub open spec fn distillation_in_effect(args: FineTuneArgs) -> Real32 {
    if args.teacher_as_input {
        zero32()
    } else {
        args.distillation_weight
    }
}

/// The distillation weight that is used: none with teacher features as input.
pub fn effective_distillation_weight(args: &FineTuneArgs) -> (r: Real32)
    ensures
        r == distillation_in_effect(*args),
{
    if args.teacher_as_input {
        Real32 { bits: 0 }
    } else {
        args.distillation_weight
    }
}

/// The distillation weight of a run, given how many utterances the teacher
/// cache knows, if there is a cache: none where it knows none.
pub fn distillation_weight(args: &FineTuneArgs, matched: Option<usize>) -> (r: Result<Real32>)
    ensures
        match r {
            Ok(w) => !(args.teacher_as_input && matched == Some(0usize)) && w
                == if matched is None || matched == Some(0usize) {
                zero32()
            } else {
                distillation_in_effect(*args)
            },
            Err(e) => args.teacher_as_input && matched == Some(0usize) && e@ == ErrorView::Config(
                "--teacher-as-input matched 0 utterances in --distillation-features"@,
            ),
        },
{
    match matched {
        None => Ok(Real32 { bits: 0 }),
        Some(loaded) => if loaded == 0 && args.teacher_as_input {
            Err(
                Error::config(
                    "--teacher-as-input matched 0 utterances in --distillation-features",
                ),
            )
        } else if loaded == 0 {
            Ok(Real32 { bits: 0 })
        } else {
            Ok(effective_distillation_weight(args))
        },
    }
}

pub open spec fn input_width(args: FineTuneArgs, backbone_dim: usize) -> usize {
    if args.teacher_as_input {
        DISTILL_DIM
    } else {
        backbone_dim
    }
}

/// Input width of the scoring head.
pub fn configured_scoring_input_dim(args: &FineTuneArgs, backbone_dim: usize) -> (r: usize)
    ensures
        r == input_width(*args, backbone_dim),
{
    if args.teacher_as_input {
        DISTILL_DIM
    } else {
        backbone_dim
    }
}

pub open spec fn saved_input_width(config: ScoringHeadConfig, backbone_dim: usize) -> usize {
    if config.scoring_input_dim > 0 {
        config.scoring_input_dim
    } else if config.scoring_input_source == ScoringInputSource::TeacherCache {
        DISTILL_DIM
    } else {
        backbone_dim
    }
}

/// Input width of a saved scoring head. A configuration without one stands for
/// the width of its input source.
pub fn scoring_input_dim_from_config(
    config: &ScoringHeadConfig,
    backbone_dim: usize,
) -> (r: usize)
    ensures
        r == saved_input_width(*config, backbone_dim),
{
    if config.scoring_input_dim > 0 {
        config.scoring_input_dim
    } else {
        match config.scoring_input_source {
            ScoringInputSource::TeacherCache => DISTILL_DIM,
            ScoringInputSource::Backbone => backbone_dim,
        }
    }
}

/// The configuration that is saved beside the scoring head.
pub fn build_scoring_head_config(args: &FineTuneArgs) -> (r: ScoringHeadConfig)
    ensures
        r.feature_mode == args.feature_mode,
        r.scoring_input_source == input_source(*args),
        r.scoring_input_dim == input_width(*args, 512),
        r.ordinal_loss == args.ordinal_loss,
        r.ordinal_softmax_loss == args.ordinal_softmax_loss,
        r.balanced_mse == args.balanced_mse,
        r.pooling_mode == args.pooling_mode,
        r.hidden_dim == args.scoring_hidden,
        r.output_dim == output_width(*args),
        r.ordinal_boundaries@ == ordinal_boundaries(),
        r.ordinal_bin_centers@ == ordinal_bin_centers(),
        r.balanced_mse_noise_sigma == args.balanced_mse_noise_sigma,
        r.rank_regularization_weight == args.rank_regularization_weight,
        r.rank_similarity_tau == args.rank_similarity_tau,
{
    let model = SpeechAlignerConfig::for_feature_mode(args.feature_mode);
    let backbone_dim: usize = model.channels[3];
    assert(model.channels@[3] == 512);
    ScoringHeadConfig {
        feature_mode: args.feature_mode,
        scoring_input_source: scoring_input_source_from_args(args),
        scoring_input_dim: configured_scoring_input_dim(args, backbone_dim),
        ordinal_loss: args.ordinal_loss,
        ordinal_softmax_loss: args.ordinal_softmax_loss,
        balanced_mse: args.balanced_mse,
        pooling_mode: args.pooling_mode,
        hidden_dim: args.scoring_hidden,
        output_dim: scoring_head_output_dim(args),
        ordinal_boundaries: default_ordinal_boundaries(),
        ordinal_bin_centers: default_ordinal_bin_centers(),
        balanced_mse_noise_sigma: args.balanced_mse_noise_sigma,
        rank_regularization_weight: args.rank_regularization_weight,
        rank_similarity_tau: args.rank_similarity_tau,
    }
}

pub open spec fn base_label(args: FineTuneArgs) -> Seq<char> {
    if args.fresh_init {
        "fresh_init ("@ + args.feature_mode.name() + ")"@
    } else {
        match args.checkpoint {
            Some(path) => path@,
            None => "<missing checkpoint>"@,
        }
    }
}

/// Where the base model comes from, for logs and reports.
pub fn base_checkpoint_label(args: &FineTuneArgs) -> (r: String)
    ensures
        r@ == base_label(*args),
{
    if args.fresh_init {
        let mut label = "fresh_init (".to_owned();
        label.append(args.feature_mode.label());
        label.append(")");
        label
    } else {
        match &args.checkpoint {
            Some(path) => path.clone(),
            None => "<missing checkpoint>".to_owned(),
        }
    }
}

/// `configured`, 256 and 512, from the smallest up, without repetition and
/// without zero.
pub open spec fn hidden_widths(configured: usize) -> Seq<usize> {
    if 0 < configured < 256 {
        seq![configured, 256, 512]
    } else if 256 < configured < 512 {
        seq![256, configured, 512]
    } else if 512 < configured {
        seq![256, 512, configured]
    } else {
        seq![256, 512]
    }
}

/// The hidden widths to try when a scoring head is loaded: that of its
/// configuration, 256 and 512, from the smallest up, without repetition and
/// without zero.
pub fn scoring_head_hidden_candidates(config: &ScoringHeadConfig) -> (r: Vec<usize>)
    ensures
        r@ == hidden_widths(config.hidden_dim),
        forall|i: int, j: int| 0 <= i < j < r@.len() ==> r@[i] < r@[j],
        forall|x: usize|
            r@.contains(x) <==> x > 0 && (x == config.hidden_dim || x == 256 || x == 512),
{
    let h: usize = config.hidden_dim;
    let mut r: Vec<usize> = Vec::new();
    if 0 < h && h < 256 {
        r.push(h);
    }
    r.push(256);
    if 256 < h && h < 512 {
        r.push(h);
    }
    r.push(512);
    if 512 < h {
        r.push(h);
    }
    assert(r@ =~= hidden_widths(h));
    proof {
        assert forall|x: usize| x > 0 && (x == h || x == 256 || x == 512) implies r@.contains(
            x,
        ) by {
            let first = if 0 < h < 256 {
                1int
            } else {
                0int
            };
            let second = if 256 < h < 512 {
                first + 2
            } else {
                first + 1
            };
            assert(r@[first] == 256);
            assert(r@[second] == 512);
            if x == h && 0 < h < 256 {
                assert(r@[0] == x);
            } else if x == h && 256 < h < 512 {
                assert(r@[1] == x);
            } else if x == h && 512 < h {
                assert(r@[2] == x);
            }
        }
    }
    r
}

// ---------------------------------------------------------------------------
// Learning rate
// ---------------------------------------------------------------------------

/// Where in the learning-rate schedule an epoch lies.
#[derive(Debug, Clone, Copy, PartialEq, Eq, Structural)]
pub enum LrPhase {
    /// The base rate.
    Flat,
    /// `step` of `of` parts of the base rate.
    Warmup { step: usize, of: usize },
    /// Cosine decay, `done` of `of` through.
    Decay { done: usize, of: usize },
}

/// Linear warmup, then cosine decay; a flat rate where there is no warmup.
pub fn lr_phase(epoch: usize, warmup_epochs: usize, total_epochs: usize) -> (r: LrPhase)
    requires
        epoch < total_epochs,
    ensures
        r == if warmup_epochs == 0 {
            LrPhase::Flat
        } else if epoch < warmup_epochs {
            LrPhase::Warmup { step: (epoch + 1) as usize, of: warmup_epochs }
        } else {
            LrPhase::Decay {
                done: (epoch - warmup_epochs) as usize,
                of: (total_epochs - warmup_epochs) as usize,
            }
        },
        r matches LrPhase::Warmup { step, of } ==> 0 < step <= of,
        r matches LrPhase::Decay { done, of } ==> done < of,
{
    if warmup_epochs == 0 {
        LrPhase::Flat
    } else if epoch < warmup_epochs {
        LrPhase::Warmup { step: epoch + 1, of: warmup_epochs }
    } else {
        LrPhase::Decay { done: epoch - warmup_epochs, of: total_epochs - warmup_epochs }
    }
}

} // verus!
