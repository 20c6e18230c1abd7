//! The course of an evaluation: which scores each method gathers.

use vstd::prelude::*;

use crate::error::{Error, ErrorView, Result};
use crate::finetune::config::{ScoringHeadConfig, ScoringInputSource};
use crate::ieee::Real64;
use crate::mfcc::FeatureMode;
use crate::text;
use crate::text::decimal_of;

verus! {

/// Fewest words that a correlation is taken over.
pub const MIN_WORDS: usize = 10;

/// Arguments for checkpoint evaluation.
pub struct EvaluateArgs {
    pub checkpoint: String,
    pub scoring_head: Option<String>,
    pub dataset: String,
    pub data_root: String,
    pub max_samples: Option<usize>,
    pub feature_mode: FeatureMode,
    pub distillation_features: Option<String>,
}

/// The features that are evaluated on: those of the scoring head where there
/// is one, else those asked for.
pub fn resolved_feature_mode(args: &EvaluateArgs, config: &ScoringHeadConfig) -> (r: FeatureMode)
    ensures
        r == if args.scoring_head is Some {
            config.feature_mode
        } else {
            args.feature_mode
        },
{
    if args.scoring_head.is_some() {
        config.feature_mode
    } else {
        args.feature_mode
    }
}

/// Refuses a scoring head that reads teacher features where none are given.
pub fn check_teacher_inputs(args: &EvaluateArgs, config: &ScoringHeadConfig) -> (r: Result<()>)
    ensures
        ({
            let missing = args.scoring_head is Some && config.scoring_input_source
                == ScoringInputSource::TeacherCache && args.distillation_features is None;
            match r {
                Ok(_) => !missing,
                Err(e) => missing && e@ == ErrorView::Config(
                    "Scoring head requires --distillation-features to replay cached teacher inputs"@,
                ),
            }
        }),
{
    if args.scoring_head.is_some() && config.scoring_input_source
        == ScoringInputSource::TeacherCache && args.distillation_features.is_none() {
        return Err(
            Error::config(
                "Scoring head requires --distillation-features to replay cached teacher inputs",
            ),
        );
    }
    Ok(())
}

/// How a scoring head was trained.
pub fn scoring_mode_label(config: &ScoringHeadConfig) -> (r: &'static str)
    ensures
        r@ == if config.ordinal_loss {
            "ordinal"@
        } else if config.balanced_mse {
            "balanced_mse"@
        } else {
            "regression"@
        },
{
    if config.ordinal_loss {
        "ordinal"
    } else if config.balanced_mse {
        "balanced_mse"
    } else {
        "regression"
    }
}

pub open spec fn scorer_text(config: ScoringHeadConfig) -> Seq<char> {
    if config.ordinal_softmax_loss {
        "SO762 fine-tuned 5-class ordinal scorer"@
    } else if config.ordinal_loss {
        "SO762 fine-tuned threshold-ordinal scorer"@
    } else {
        "SO762 fine-tuned regression scorer"@
    }
}

/// What kind of scorer a scoring head is.
pub fn scorer_description(config: &ScoringHeadConfig) -> (r: &'static str)
    ensures
        r@ == scorer_text(*config),
{
    if config.ordinal_softmax_loss {
        "SO762 fine-tuned 5-class ordinal scorer"
    } else if config.ordinal_loss {
        "SO762 fine-tuned threshold-ordinal scorer"
    } else {
        "SO762 fine-tuned regression scorer"
    }
}

/// The scores that one method gave, each with the human score of its word.
pub struct MetricAccumulator {
    pub name: &'static str,
    pub description: &'static str,
    pub predicted: Vec<Real64>,
    pub human: Vec<Real64>,
}

impl MetricAccumulator {
    /// Every score has a human score.
    pub open spec fn paired(self) -> bool {
        self.predicted@.len() == self.human@.len()
    }

    /// `self` is `before` with one more score.
    pub open spec fn extends(self, before: Self, predicted: Real64, human: Real64) -> bool {
        &&& self.name == before.name
        &&& self.description == before.description
        &&& self.predicted@ == before.predicted@.push(predicted)
        &&& self.human@ == before.human@.push(human)
    }

    /// A method that has given no score yet.
    pub fn new(name: &'static str, description: &'static str) -> (r: Self)
        ensures
            r.name == name,
            r.description == description,
            r.predicted@.len() == 0,
            r.human@.len() == 0,
    {
        MetricAccumulator { name, description, predicted: Vec::new(), human: Vec::new() }
    }

    /// Adds the score of a word.
    pub fn push(&mut self, predicted: Real64, human: Real64)
        ensures
            final(self).extends(*old(self), predicted, human),
    {
        self.predicted.push(predicted);
        self.human.push(human);
    }

    /// Number of words that have a score.
    pub fn words_scored(&self) -> (r: usize)
        ensures
            r == if self.predicted@.len() < self.human@.len() {
                self.predicted@.len()
            } else {
                self.human@.len()
            },
    {
        let predicted: usize = self.predicted.len();
        let human: usize = self.human.len();
        if predicted < human {
            predicted
        } else {
            human
        }
    }
}

/// What was measured of a word. The first is by log-probability, by raw score
/// and by margin.
#[derive(Debug, Clone, Copy)]
pub struct WordScores {
    pub gop: Option<(Real64, Real64, Real64)>,
    pub self_aligned: Option<Real64>,
    pub head: Option<Real64>,
}

/// The scores of all methods so far.
pub struct Evaluation {
    pub log_prob: MetricAccumulator,
    pub max_logit: MetricAccumulator,
    pub margin: MetricAccumulator,
    pub self_aligned: MetricAccumulator,
    pub head: Option<MetricAccumulator>,
    /// Human scores of the words that any method scored.
    pub humans: Vec<Real64>,
    /// Number of words that no method scored.
    pub skipped: usize,
}

impl Evaluation {
    /// No method has more scores than there are scored words, and every score
    /// has a human score.
    pub open spec fn valid(self) -> bool {
        &&& self.log_prob.paired() && self.log_prob.predicted@.len() <= self.humans@.len()
        &&& self.max_logit.paired() && self.max_logit.predicted@.len() == self.log_prob.predicted@.len()
        &&& self.margin.paired() && self.margin.predicted@.len() == self.log_prob.predicted@.len()
        &&& self.self_aligned.paired() && self.self_aligned.predicted@.len() <= self.humans@.len()
        &&& match self.head {
            Some(head) => head.paired() && head.predicted@.len() <= self.humans@.len(),
            None => true,
        }
    }

    /// Whether a method scored a word.
    pub open spec fn scored(self, scores: WordScores) -> bool {
        scores.gop is Some || scores.self_aligned is Some || (self.head is Some && scores.head is Some)
    }

    /// An evaluation of the pronunciation measures, and of a scoring head
    /// where one is given.
    pub fn new(head: Option<&ScoringHeadConfig>) -> (r: Self)
        ensures
            r.valid(),
            r.humans@.len() == 0,
            r.skipped == 0,
            r.log_prob.name@ == "GOPLogProb"@,
            r.log_prob.description@ == "Max log-softmax prob per phoneme"@,
            r.max_logit.name@ == "GOPMaxLogit"@,
            r.max_logit.description@ == "Max raw logit per phoneme"@,
            r.margin.name@ == "GOPMargin"@,
            r.margin.description@ == "Target logit minus next-best logit"@,
            r.self_aligned.name@ == "GOP-SA"@,
            r.self_aligned.description@ == "Self-aligned CTC pronunciation score"@,
            match (head, r.head) {
                (Some(config), Some(metric)) => metric.name@ == "ScoringHead"@
                    && metric.description@ == scorer_text(*config),
                (None, None) => true,
                _ => false,
            },
    {
        Evaluation {
            log_prob: MetricAccumulator::new("GOPLogProb", "Max log-softmax prob per phoneme"),
            max_logit: MetricAccumulator::new("GOPMaxLogit", "Max raw logit per phoneme"),
            margin: MetricAccumulator::new("GOPMargin", "Target logit minus next-best logit"),
            self_aligned: MetricAccumulator::new("GOP-SA", "Self-aligned CTC pronunciation score"),
            head: match head {
                Some(config) => Some(
                    MetricAccumulator::new("ScoringHead", scorer_description(config)),
                ),
                None => None,
            },
            humans: Vec::new(),
            skipped: 0,
        }
    }

    /// Records a word: each method that scored it gets its score, and the word
    /// counts as skipped where none did.
    pub fn record_word(&mut self, human: Real64, scores: WordScores)
        requires
            old(self).valid(),
            old(self).skipped < usize::MAX,
        ensures
            final(self).valid(),
            match scores.gop {
                Some((log_prob, max_logit, margin)) => final(self).log_prob.extends(
                    old(self).log_prob,
                    log_prob,
                    human,
                ) && final(self).max_logit.extends(old(self).max_logit, max_logit, human) && final(self).margin.extends(old(self).margin, margin, human),
                None => final(self).log_prob == old(self).log_prob && final(self).max_logit == old(self).max_logit && final(self).margin == old(self).margin,
            },
            match scores.self_aligned {
                Some(score) => final(self).self_aligned.extends(
                    old(self).self_aligned,
                    score,
                    human,
                ),
                None => final(self).self_aligned == old(self).self_aligned,
            },
            match (old(self).head, scores.head) {
                (Some(before), Some(score)) => final(self).head is Some && (final(self).head->0).extends(before, score, human),
                _ => final(self).head == old(self).head,
            },
            old(self).scored(scores) ==> final(self).humans@ == old(self).humans@.push(human) && final(self).skipped == old(self).skipped,
            !old(self).scored(scores) ==> final(self).humans@ == old(self).humans@ && final(self).skipped == old(self).skipped + 1,
    {
        let mut scored = false;
        if let Some((log_prob, max_logit, margin)) = scores.gop {
            self.log_prob.push(log_prob, human);
            self.max_logit.push(max_logit, human);
            self.margin.push(margin, human);
            scored = true;
        }
        if let Some(score) = scores.self_aligned {
            self.self_aligned.push(score, human);
            scored = true;
        }
        if let Some(score) = scores.head {
            match self.head.take() {
                Some(mut head) => {
                    head.push(score, human);
                    self.head = Some(head);
                    scored = true;
                },
                None => {
                    self.head = None;
                },
            }
        }
        if scored {
            self.humans.push(human);
        } else {
            self.skipped = self.skipped + 1;
        }
    }

    /// Number of words that a method scored.
    pub fn processed(&self) -> (r: usize)
        ensures
            r == self.humans@.len(),
    {
        self.humans.len()
    }

    /// The progress line after `done` of `total` utterances: one every two
    /// hundred, and one at the end.
    pub fn progress(&self, done: usize, total: usize) -> (r: Option<String>)
        ensures
            match r {
                Some(line) => (done % 200 == 0 || done == total) && line@ == "  ["@
                    + text::decimal(done as nat) + "/"@ + text::decimal(total as nat)
                    + "] utterances, "@ + text::decimal(self.humans@.len()) + " words scored, "@
                    + text::decimal(self.skipped as nat) + " skipped"@,
                None => done % 200 != 0 && done != total,
            },
    {
        if done % 200 != 0 && done != total {
            return None;
        }
        let mut line = "  [".to_owned();
        let upto = decimal_of(done as u64);
        line.append(upto.as_str());
        line.append("/");
        let all = decimal_of(total as u64);
        line.append(all.as_str());
        line.append("] utterances, ");
        let scored = decimal_of(self.humans.len() as u64);
        line.append(scored.as_str());
        line.append(" words scored, ");
        let skipped = decimal_of(self.skipped as u64);
        line.append(skipped.as_str());
        line.append(" skipped");
        Some(line)
    }

    /// Whether a head that reads teacher features scored nothing.
    pub open spec fn lacks_teacher_scores(self, source: ScoringInputSource) -> bool {
        source == ScoringInputSource::TeacherCache && match self.head {
            Some(head) => head.predicted@.len() == 0,
            None => true,
        }
    }

    /// Refuses an evaluation that has too little to correlate.
    pub fn check_scored(&self, source: ScoringInputSource) -> (r: Result<()>)
        requires
            self.valid(),
        ensures
            match r {
                Ok(_) => !self.lacks_teacher_scores(source) && self.humans@.len() >= MIN_WORDS,
                Err(e) => if self.lacks_teacher_scores(source) {
                    e@ == ErrorView::Config(
                        "Teacher-cache scoring head produced 0 words. Ensure --distillation-features contains the evaluation split, not only the training set."@,
                    )
                } else {
                    self.humans@.len() < MIN_WORDS && e@ == ErrorView::Process(
                        "Only "@ + text::decimal(self.humans@.len())
                            + " words scored — too few for meaningful correlation"@,
                    )
                },
            },
    {
        let head_words: usize = match &self.head {
            Some(head) => head.words_scored(),
            None => 0,
        };
        if source == ScoringInputSource::TeacherCache && head_words == 0 {
            return Err(
                Error::config(
                    "Teacher-cache scoring head produced 0 words. Ensure --distillation-features contains the evaluation split, not only the training set.",
                ),
            );
        }
        let processed: usize = self.humans.len();
        if processed < MIN_WORDS {
            let mut message = "Only ".to_owned();
            let number = decimal_of(processed as u64);
            message.append(number.as_str());
            message.append(" words scored — too few for meaningful correlation");
            return Err(Error::process(message.as_str()));
        }
        Ok(())
    }
}

} // verus!
