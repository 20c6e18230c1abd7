//! The course of a fine-tuning run: which utterances are trained on when, what
//! counts, and when checkpoints, metrics and evaluations are due.

use vstd::prelude::*;

use super::prepare::WordTarget;
use crate::dataset;
use crate::error::{Error, ErrorView, Result};
use crate::ieee::Real32;
use crate::model;
use crate::model::proportional_word_frame_span;
use crate::text;
use crate::text::decimal_of;

verus! {

/// Batches between two metric lines.
pub const FINE_TUNE_BATCH_METRIC_INTERVAL: usize = 25;

/// Number of samples that are used: all, or as many as asked for.
pub fn sample_limit(max_samples: Option<usize>, available: usize) -> (r: usize)
    ensures
        r == match max_samples {
            Some(max) => if max < available {
                max
            } else {
                available
            },
            None => available,
        },
        r <= available,
{
    match max_samples {
        Some(max) => if max < available {
            max
        } else {
            available
        },
        None => available,
    }
}

// ---------------------------------------------------------------------------
// One batch
// ---------------------------------------------------------------------------

/// Whether a batch has anything to align.
pub fn batch_has_work(max_frames: usize, max_targets: usize) -> (r: bool)
    ensures
        r == (max_frames > 0 && max_targets > 0),
{
    max_frames > 0 && max_targets > 0
}

/// The number of frames that an utterance's words are scored on: its own, or
/// those of the teacher where the teacher's features are the input; `None`
/// where there is nothing to score.
pub fn scoring_frames(
    teacher_as_input: bool,
    frames: usize,
    words: usize,
    teacher_frames: Option<usize>,
) -> (r: Option<usize>)
    ensures
        r == if frames == 0 || words == 0 {
            None
        } else if !teacher_as_input {
            Some(frames)
        } else if teacher_frames == Some(0usize) {
            None
        } else {
            teacher_frames
        },
        r matches Some(n) ==> n > 0,
{
    if frames == 0 || words == 0 {
        return None;
    }
    if !teacher_as_input {
        return Some(frames);
    }
    match teacher_frames {
        Some(n) => if n > 0 {
            Some(n)
        } else {
            None
        },
        None => None,
    }
}

/// A word with the frames that it is pooled over.
#[derive(Debug, Clone, Copy, PartialEq, Eq, Structural)]
pub struct PlannedWord {
    pub start: usize,
    pub end: usize,
    pub human_score: Real32,
    pub human_score_raw: i32,
    pub weight: Real32,
}

/// The frames of a word target, if it gets any.
pub open spec fn span_in(frames: int, word: WordTarget) -> Option<(int, int)> {
    model::word_span(frames, word.num_words as int, word.word_position as int)
}

pub open spec fn planned(word: WordTarget, span: (int, int)) -> PlannedWord {
    PlannedWord {
        start: span.0 as usize,
        end: span.1 as usize,
        human_score: word.human_score,
        human_score_raw: word.human_score_raw,
        weight: word.weight,
    }
}

/// The words that get frames, in order.
pub open spec fn scoring_plan(frames: int, words: Seq<WordTarget>) -> Seq<PlannedWord>
    decreases words.len(),
{
    if words.len() == 0 {
        seq![]
    } else {
        let before = scoring_plan(frames, words.drop_last());
        match span_in(frames, words.last()) {
            Some(span) => before.push(planned(words.last(), span)),
            None => before,
        }
    }
}

/// The words of an utterance that are scored, each with its frames, its score
/// and its weight.
pub fn plan_scoring(frames: usize, words: &Vec<WordTarget>) -> (r: Vec<PlannedWord>)
    ensures
        r@ == scoring_plan(frames as int, words@),
        forall|k: int|
            0 <= k < r@.len() ==> (#[trigger] r@[k]).start < r@[k].end && r@[k].end <= frames,
{
    let n: usize = words.len();
    let mut out: Vec<PlannedWord> = Vec::new();
    let mut i: usize = 0;
    assert(words@.take(0) =~= Seq::<WordTarget>::empty());
    while i < n
        invariant
            n == words@.len(),
            i <= n,
            out@ == scoring_plan(frames as int, words@.take(i as int)),
            forall|k: int|
                0 <= k < out@.len() ==> (#[trigger] out@[k]).start < out@[k].end && out@[k].end
                    <= frames,
        decreases n - i,
    {
        let ghost upto = words@.take(i + 1);
        assert(upto.drop_last() =~= words@.take(i as int));
        assert(upto.last() == words@[i as int]);
        let w: WordTarget = words[i];
        if let Some((start, end)) = proportional_word_frame_span(
            frames,
            w.num_words,
            w.word_position,
        ) {
            out.push(
                PlannedWord {
                    start,
                    end,
                    human_score: w.human_score,
                    human_score_raw: w.human_score_raw,
                    weight: w.weight,
                },
            );
        }
        i = i + 1;
    }
    assert(words@.take(n as int) =~= words@);
    out
}

// ---------------------------------------------------------------------------
// The run
// ---------------------------------------------------------------------------

/// What a run is at.
#[derive(Debug, Clone, Copy, PartialEq, Eq, Structural)]
pub enum Phase {
    /// Mini-batch `step` of the epoch.
    Batch { step: usize },
    /// The end of the epoch: statistics and checkpoints.
    Close,
    /// Evaluation on the holdout set.
    Evaluate,
    Finished,
}

/// What is to be done next.
#[derive(Debug, Clone, Copy, PartialEq, Eq, Structural)]
pub enum Action {
    /// Train on the utterances `start..end`.
    Train { epoch: usize, step: usize, total_steps: usize, start: usize, end: usize },
    /// Report and save epoch `epoch`, of which so many batches and words
    /// counted.
    CloseEpoch { epoch: usize, batches: usize, words: usize },
    /// Evaluate after epoch `epoch`.
    EvaluateHoldout { epoch: usize },
    /// Save the final models and write the report.
    Finish,
}

/// The state of a fine-tuning run. Epochs are counted from zero here and from
/// one in actions.
#[derive(Debug, Clone, Copy, PartialEq, Eq, Structural)]
pub struct FineTuneRun {
    pub utterances: usize,
    pub batch_size: usize,
    pub epochs: usize,
    pub eval_interval: usize,
    pub has_holdout: bool,
    pub epoch: usize,
    pub phase: Phase,
    /// Batches of this epoch that counted.
    pub batches: usize,
    /// Words of this epoch that counted.
    pub words: usize,
}

/// How many mini-batches an epoch has.
pub open spec fn steps_for(utterances: int, batch_size: int) -> int {
    if utterances % batch_size == 0 {
        utterances / batch_size
    } else {
        utterances / batch_size + 1
    }
}

proof fn lemma_step_in_range(utterances: int, batch_size: int, step: int)
    requires
        utterances >= 0,
        batch_size > 0,
        0 <= step,
    ensures
        step < steps_for(utterances, batch_size) <==> step * batch_size < utterances,
        steps_for(utterances, batch_size) <= utterances,
        steps_for(utterances, batch_size) >= 0,
{
    let q = utterances / batch_size;
    let r = utterances % batch_size;
    assert(utterances == q * batch_size + r && 0 <= r < batch_size && q >= 0) by (nonlinear_arith)
        requires
            utterances >= 0,
            batch_size > 0,
            q == utterances / batch_size,
            r == utterances % batch_size,
    ;
    assert(q <= q * batch_size) by (nonlinear_arith)
        requires
            q >= 0,
            batch_size >= 1,
    ;
    if step < q {
        assert(step * batch_size + batch_size <= q * batch_size) by (nonlinear_arith)
            requires
                step + 1 <= q,
                batch_size > 0,
        ;
    } else if step == q {
    } else {
        assert(step * batch_size >= q * batch_size + batch_size) by (nonlinear_arith)
            requires
                step >= q + 1,
                batch_size > 0,
        ;
    }
}

impl FineTuneRun {
    pub open spec fn total_steps(self) -> int {
        steps_for(self.utterances as int, self.batch_size as int)
    }

    pub open spec fn eval_due(self) -> bool {
        self.has_holdout && self.eval_interval > 0 && (self.epoch + 1) % (self.eval_interval as int)
            == 0
    }

    /// The state makes sense.
    pub open spec fn valid(self) -> bool {
        &&& self.batch_size > 0
        &&& self.phase == Phase::Finished || self.epoch < self.epochs
        &&& match self.phase {
            Phase::Batch { step } => step < self.total_steps() && self.batches <= step,
            Phase::Evaluate => self.eval_due(),
            _ => true,
        }
    }

    /// The state at the start of epoch `epoch`, or at the end of the run.
    pub open spec fn at_epoch(self, epoch: int) -> FineTuneRun {
        FineTuneRun {
            epoch: epoch as usize,
            phase: if epoch >= self.epochs {
                Phase::Finished
            } else if self.total_steps() == 0 {
                Phase::Close
            } else {
                Phase::Batch { step: 0 }
            },
            batches: 0,
            words: 0,
            ..self
        }
    }

    /// A run over `utterances` utterances. A batch size of zero counts as one.
    pub fn new(
        utterances: usize,
        batch_size: usize,
        epochs: usize,
        eval_interval: usize,
        has_holdout: bool,
    ) -> (r: Self)
        ensures
            r.valid(),
            r == (FineTuneRun {
                utterances,
                batch_size: if batch_size == 0 {
                    1
                } else {
                    batch_size
                },
                epochs,
                eval_interval,
                has_holdout,
                epoch: 0,
                phase: Phase::Finished,
                batches: 0,
                words: 0,
            }).at_epoch(0),
    {
        let size: usize = if batch_size == 0 {
            1
        } else {
            batch_size
        };
        let run = FineTuneRun {
            utterances,
            batch_size: size,
            epochs,
            eval_interval,
            has_holdout,
            epoch: 0,
            phase: Phase::Finished,
            batches: 0,
            words: 0,
        };
        run.begin(0)
    }

    fn begin(self, epoch: usize) -> (r: Self)
        requires
            self.batch_size > 0,
        ensures
            r == self.at_epoch(epoch as int),
            r.valid(),
    {
        let phase = if epoch >= self.epochs {
            Phase::Finished
        } else if self.utterances == 0 {
            proof {
                lemma_step_in_range(0, self.batch_size as int, 0);
            }
            Phase::Close
        } else {
            proof {
                lemma_step_in_range(self.utterances as int, self.batch_size as int, 0);
            }
            Phase::Batch { step: 0 }
        };
        FineTuneRun { epoch, phase, batches: 0, words: 0, ..self }
    }

    /// The number of mini-batches of an epoch.
    pub fn steps(&self) -> (r: usize)
        requires
            self.batch_size > 0,
        ensures
            r == self.total_steps(),
    {
        proof {
            lemma_step_in_range(self.utterances as int, self.batch_size as int, 0);
        }
        if self.utterances % self.batch_size == 0 {
            self.utterances / self.batch_size
        } else {
            self.utterances / self.batch_size + 1
        }
    }

    /// What is to be done in this state.
    pub open spec fn due(self) -> Action {
        match self.phase {
            Phase::Batch { step } => {
                let start = step * self.batch_size;
                Action::Train {
                    epoch: (self.epoch + 1) as usize,
                    step,
                    total_steps: self.total_steps() as usize,
                    start: start as usize,
                    end: if start + self.batch_size < self.utterances {
                        (start + self.batch_size) as usize
                    } else {
                        self.utterances
                    },
                }
            },
            Phase::Close => Action::CloseEpoch {
                epoch: (self.epoch + 1) as usize,
                batches: self.batches,
                words: self.words,
            },
            Phase::Evaluate => Action::EvaluateHoldout { epoch: (self.epoch + 1) as usize },
            Phase::Finished => Action::Finish,
        }
    }

    /// What is to be done next.
    pub fn action(&self) -> (r: Action)
        requires
            self.valid(),
        ensures
            r == self.due(),
            r matches Action::Train { start, end, .. } ==> start < end <= self.utterances,
    {
        match self.phase {
            Phase::Batch { step } => {
                proof {
                    lemma_step_in_range(
                        self.utterances as int,
                        self.batch_size as int,
                        step as int,
                    );
                    lemma_step_in_range(self.utterances as int, self.batch_size as int, 0);
                }
                let start: usize = step * self.batch_size;
                let end: usize = if self.batch_size < self.utterances - start {
                    start + self.batch_size
                } else {
                    self.utterances
                };
                Action::Train {
                    epoch: self.epoch + 1,
                    step,
                    total_steps: self.steps(),
                    start,
                    end,
                }
            },
            Phase::Close => Action::CloseEpoch {
                epoch: self.epoch + 1,
                batches: self.batches,
                words: self.words,
            },
            Phase::Evaluate => Action::EvaluateHoldout { epoch: self.epoch + 1 },
            Phase::Finished => Action::Finish,
        }
    }

    /// Whether a batch of this loss counts and changes the weights.
    pub fn accepts(loss: Real32) -> (r: bool)
        ensures
            r == loss.finite(),
    {
        loss.is_finite()
    }

    /// Whether a metric line is due once the present batch has counted: every
    /// so many batches that counted, and at the last of the epoch.
    pub open spec fn metrics_due(self, step: int) -> bool {
        (self.batches + 1) % (FINE_TUNE_BATCH_METRIC_INTERVAL as int) == 0 || step + 1
            == self.total_steps()
    }

    /// Whether a metric line is due for the present batch, should it count.
    pub fn emits_metrics(&self) -> (r: bool)
        requires
            self.valid(),
        ensures
            r == match self.phase {
                Phase::Batch { step } => self.metrics_due(step as int),
                _ => false,
            },
    {
        match self.phase {
            Phase::Batch { step } => {
                proof {
                    lemma_step_in_range(self.utterances as int, self.batch_size as int, 0);
                }
                (self.batches + 1) % FINE_TUNE_BATCH_METRIC_INTERVAL == 0 || step + 1
                    == self.steps()
            },
            _ => false,
        }
    }

    /// The state after the present action. For a batch, `trained` is the
    /// number of words that it trained on, and `None` where it did not count.
    pub open spec fn after(self, trained: Option<usize>) -> FineTuneRun {
        match self.phase {
            Phase::Batch { step } => {
                let counted = match trained {
                    Some(words) => FineTuneRun {
                        batches: (self.batches + 1) as usize,
                        words: (self.words + words) as usize,
                        ..self
                    },
                    None => self,
                };
                FineTuneRun {
                    phase: if step + 1 < self.total_steps() {
                        Phase::Batch { step: (step + 1) as usize }
                    } else {
                        Phase::Close
                    },
                    ..counted
                }
            },
            Phase::Close => if self.eval_due() {
                FineTuneRun { phase: Phase::Evaluate, ..self }
            } else {
                self.at_epoch(self.epoch + 1)
            },
            Phase::Evaluate => self.at_epoch(self.epoch + 1),
            Phase::Finished => self,
        }
    }

    /// Goes on to the next action.
    pub fn advance(&mut self, trained: Option<usize>)
        requires
            old(self).valid(),
            trained matches Some(w) ==> old(self).words + w <= usize::MAX,
        ensures
            *final(self) == old(self).after(trained),
            final(self).valid(),
    {
        match self.phase {
            Phase::Batch { step } => {
                proof {
                    lemma_step_in_range(self.utterances as int, self.batch_size as int, 0);
                }
                let total: usize = self.steps();
                if let Some(words) = trained {
                    self.batches = self.batches + 1;
                    self.words = self.words + words;
                }
                self.phase = if step + 1 < total {
                    Phase::Batch { step: step + 1 }
                } else {
                    Phase::Close
                };
            },
            Phase::Close => {
                let due = self.has_holdout && self.eval_interval > 0 && (self.epoch + 1)
                    % self.eval_interval == 0;
                if due {
                    self.phase = Phase::Evaluate;
                } else {
                    *self = self.begin(self.epoch + 1);
                }
            },
            Phase::Evaluate => {
                *self = self.begin(self.epoch + 1);
            },
            Phase::Finished => {},
        }
    }
}

/// The mini-batches of an epoch cover the utterances, each once: they are the
/// spans of batches of a fixed size.
pub proof fn law_steps_cover_utterances(utterances: int, batch_size: int, step: int)
    requires
        utterances >= 0,
        batch_size > 0,
        0 <= step < steps_for(utterances, batch_size),
    ensures
        dataset::fixed_spans_from(0, utterances, batch_size).len() == steps_for(
            utterances,
            batch_size,
        ),
        dataset::fixed_spans_from(0, utterances, batch_size)[step] == (
            step * batch_size,
            if step * batch_size + batch_size < utterances {
                step * batch_size + batch_size
            } else {
                utterances
            },
        ),
{
    lemma_spans_from(utterances, batch_size, 0, step);
    assert(0 * batch_size == 0);
}

proof fn lemma_spans_from(utterances: int, batch_size: int, from: int, step: int)
    requires
        utterances >= 0,
        batch_size > 0,
        0 <= from <= steps_for(utterances, batch_size),
    ensures
        from < steps_for(utterances, batch_size) ==> dataset::fixed_spans_from(
            from * batch_size,
            utterances,
            batch_size,
        ).len() == steps_for(utterances, batch_size) - from,
        from <= step < steps_for(utterances, batch_size) ==> dataset::fixed_spans_from(
            from * batch_size,
            utterances,
            batch_size,
        )[step - from] == (
            step * batch_size,
            if step * batch_size + batch_size < utterances {
                step * batch_size + batch_size
            } else {
                utterances
            },
        ),
    decreases steps_for(utterances, batch_size) - from,
{
    let total = steps_for(utterances, batch_size);
    if from < total {
        lemma_step_in_range(utterances, batch_size, from);
        lemma_step_in_range(utterances, batch_size, from + 1);
        assert((from + 1) * batch_size == from * batch_size + batch_size) by (nonlinear_arith);
        assert(from * batch_size >= 0) by (nonlinear_arith)
            requires
                from >= 0,
                batch_size > 0,
        ;
        let here = dataset::fixed_spans_from(from * batch_size, utterances, batch_size);
        if from + 1 < total {
            lemma_spans_from(utterances, batch_size, from + 1, step);
            let rest = dataset::fixed_spans_from(
                (from + 1) * batch_size,
                utterances,
                batch_size,
            );
            assert(here =~= seq![(from * batch_size, (from + 1) * batch_size)] + rest);
            if from < step < total {
                assert(here[step - from] == rest[step - from - 1]);
            }
        } else {
            let rest = dataset::fixed_spans_from(utterances, utterances, batch_size);
            assert(rest =~= Seq::<(int, int)>::empty());
            assert(here =~= seq![(from * batch_size, utterances)]);
        }
    }
}

/// A run goes forward: every action that is not the last leads to a later
/// phase of its epoch or to the next epoch.
pub proof fn law_run_goes_forward(run: FineTuneRun, trained: Option<usize>)
    requires
        run.valid(),
        run.phase != Phase::Finished,
    ensures
        ({
            let next = run.after(trained);
            ||| next.epoch == run.epoch + 1
            ||| next.epoch == run.epoch && match (run.phase, next.phase) {
                (Phase::Batch { step: a }, Phase::Batch { step: b }) => b == a + 1,
                (Phase::Batch { .. }, Phase::Close) => true,
                (Phase::Close, Phase::Evaluate) => true,
                _ => false,
            }
        }),
{
    lemma_step_in_range(run.utterances as int, run.batch_size as int, 0);
}

/// Refuses a run without utterances.
pub fn require_utterances(count: usize) -> (r: Result<()>)
    ensures
        match r {
            Ok(_) => count > 0,
            Err(e) => count == 0 && e@ == ErrorView::Config(
                "No valid utterances were prepared for SO762 fine-tuning"@,
            ),
        },
{
    if count == 0 {
        return Err(Error::config("No valid utterances were prepared for SO762 fine-tuning"));
    }
    Ok(())
}

/// The name of the model checkpoint of an epoch.
pub fn model_checkpoint_name(epoch: usize) -> (r: String)
    ensures
        r@ == "speech-aligner-ft-epoch-"@ + text::decimal(epoch as nat),
{
    let mut name = "speech-aligner-ft-epoch-".to_owned();
    let digits = decimal_of(epoch as u64);
    name.append(digits.as_str());
    name
}

/// The name of the scoring head checkpoint of an epoch.
pub fn head_checkpoint_name(epoch: usize) -> (r: String)
    ensures
        r@ == "speech-aligner-ft-scoring-head-epoch-"@ + text::decimal(epoch as nat),
{
    let mut name = "speech-aligner-ft-scoring-head-epoch-".to_owned();
    let digits = decimal_of(epoch as u64);
    name.append(digits.as_str());
    name
}

// ---------------------------------------------------------------------------
// Losses of a run
// ---------------------------------------------------------------------------

pub open spec fn first_finite(losses: Seq<Real32>) -> Option<Real32>
    decreases losses.len(),
{
    if losses.len() == 0 {
        None
    } else if losses[0].finite() {
        Some(losses[0])
    } else {
        first_finite(losses.drop_first())
    }
}

pub open spec fn last_finite(losses: Seq<Real32>) -> Option<Real32>
    decreases losses.len(),
{
    if losses.len() == 0 {
        None
    } else if losses.last().finite() {
        Some(losses.last())
    } else {
        last_finite(losses.drop_last())
    }
}

/// The first loss that is finite.
pub fn first_finite_loss(losses: &Vec<Real32>) -> (r: Option<Real32>)
    ensures
        r == first_finite(losses@),
{
    let n: usize = losses.len();
    let mut i: usize = 0;
    assert(losses@.skip(0) =~= losses@);
    while i < n
        invariant
            n == losses@.len(),
            i <= n,
            first_finite(losses@) == first_finite(losses@.skip(i as int)),
        decreases n - i,
    {
        assert(losses@.skip(i as int).drop_first() =~= losses@.skip(i + 1));
        if losses[i].is_finite() {
            return Some(losses[i]);
        }
        i = i + 1;
    }
    None
}

/// The last loss that is finite.
pub fn last_finite_loss(losses: &Vec<Real32>) -> (r: Option<Real32>)
    ensures
        r == last_finite(losses@),
{
    let mut i: usize = losses.len();
    assert(losses@.take(i as int) =~= losses@);
    while i > 0
        invariant
            i <= losses@.len(),
            last_finite(losses@) == last_finite(losses@.take(i as int)),
        decreases i,
    {
        assert(losses@.take(i as int).drop_last() =~= losses@.take(i - 1));
        if losses[i - 1].is_finite() {
            return Some(losses[i - 1]);
        }
        i = i - 1;
    }
    None
}

} // verus!
