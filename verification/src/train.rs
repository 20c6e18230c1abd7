//! Training runs: arguments, resumption, the course of a run, metric lines and
//! reports.

use vstd::prelude::*;

use crate::clock;
use crate::clock::utc_minute;
use crate::error::{Error, ErrorView, Result};
use crate::ieee::{Real32, Real64, EPSILON_32};
use crate::markdown;
use crate::markdown::{push_count, push_field, push_loss_rows};
use crate::mfcc::FeatureMode;
use crate::precompute::PrecomputedManifest;
use crate::text;
use crate::text::{chars_of, decimal_of, parse_usize, slice_of, starts_with};

verus! {

/// Arguments for real-data training.
pub struct TrainRealArgs {
    pub data_dir: String,
    pub split: String,
    pub epochs: usize,
    pub batch_size: usize,
    pub learning_rate: Real64,
    pub checkpoint_dir: String,
    pub checkpoint_interval: usize,
    pub max_duration_secs: Real32,
    pub feature_mode: FeatureMode,
}

/// Arguments for precomputed training (fast ablation mode).
pub struct TrainPrecomputedArgs {
    /// Directory of the precomputed cache.
    pub cache_dir: String,
    /// Number of training epochs.
    pub epochs: usize,
    /// Max attention score elements per batch.
    pub max_attn_elements: usize,
    /// Hard cap on samples per batch (even if memory budget allows more).
    pub max_samples_per_batch: usize,
    /// Learning rate.
    pub learning_rate: Real64,
    /// Directory for checkpoint output.
    pub checkpoint_dir: String,
    /// Save checkpoint every N epochs (0 = only final).
    pub checkpoint_interval: usize,
    /// Optional: resume from this checkpoint path.
    pub resume_from: Option<String>,
}

/// Refuses arguments that no batch could be made with.
pub fn validate_train_real(args: &TrainRealArgs) -> (r: Result<()>)
    ensures
        match r {
            Ok(_) => args.batch_size > 0,
            Err(e) => args.batch_size == 0 && e@ == ErrorView::Config("batch_size must be > 0"@),
        },
{
    if args.batch_size == 0 {
        return Err(Error::config("batch_size must be > 0"));
    }
    Ok(())
}

/// Refuses arguments that no batch could be made with.
pub fn validate_train_precomputed(args: &TrainPrecomputedArgs) -> (r: Result<()>)
    ensures
        match r {
            Ok(_) => args.max_attn_elements > 0 && args.max_samples_per_batch > 0,
            Err(e) => if args.max_attn_elements == 0 {
                e@ == ErrorView::Config("max_attn_elements must be > 0"@)
            } else {
                args.max_samples_per_batch == 0 && e@ == ErrorView::Config(
                    "max_samples_per_batch must be > 0"@,
                )
            },
        },
{
    if args.max_attn_elements == 0 {
        return Err(Error::config("max_attn_elements must be > 0"));
    }
    if args.max_samples_per_batch == 0 {
        return Err(Error::config("max_samples_per_batch must be > 0"));
    }
    Ok(())
}

// ---------------------------------------------------------------------------
// Extraction
// ---------------------------------------------------------------------------

/// What feature extraction has done so far.
#[derive(Debug, Clone, Copy, PartialEq, Eq, Structural)]
pub struct ExtractionTally {
    pub samples: usize,
    pub skipped: usize,
    pub total_oov: usize,
}

impl ExtractionTally {
    pub fn new() -> (r: Self)
        ensures
            r == (ExtractionTally { samples: 0, skipped: 0, total_oov: 0 }),
    {
        ExtractionTally { samples: 0, skipped: 0, total_oov: 0 }
    }

    /// Counts an utterance: with its unresolved words where it became a
    /// sample, as skipped where it did not.
    pub fn record(&mut self, sample: Option<usize>)
        requires
            old(self).samples < usize::MAX,
            old(self).skipped < usize::MAX,
            sample matches Some(oov) ==> old(self).total_oov + oov <= usize::MAX,
        ensures
            *final(self) == match sample {
                Some(oov) => ExtractionTally {
                    samples: (old(self).samples + 1) as usize,
                    total_oov: (old(self).total_oov + oov) as usize,
                    ..*old(self)
                },
                None => ExtractionTally { skipped: (old(self).skipped + 1) as usize, ..*old(self) },
            },
    {
        match sample {
            Some(oov) => {
                self.samples = self.samples + 1;
                self.total_oov = self.total_oov + oov;
            },
            None => {
                self.skipped = self.skipped + 1;
            },
        }
    }

    /// The progress line after `done` of `total` utterances: one every five
    /// hundred, and one at the end.
    pub fn progress(&self, done: usize, total: usize) -> (r: Option<String>)
        ensures
            match r {
                Some(line) => (done % 500 == 0 || done == total) && line@ == "  Processed "@
                    + text::decimal(done as nat) + "/"@ + text::decimal(total as nat)
                    + " (skipped: "@ + text::decimal(self.skipped as nat) + ", OOV words: "@
                    + text::decimal(self.total_oov as nat) + ")"@,
                None => done % 500 != 0 && done != total,
            },
    {
        if done % 500 != 0 && done != total {
            return None;
        }
        let mut line = "  Processed ".to_owned();
        let upto = decimal_of(done as u64);
        line.append(upto.as_str());
        line.append("/");
        let all = decimal_of(total as u64);
        line.append(all.as_str());
        line.append(" (skipped: ");
        let skipped = decimal_of(self.skipped as u64);
        line.append(skipped.as_str());
        line.append(", OOV words: ");
        let oov = decimal_of(self.total_oov as u64);
        line.append(oov.as_str());
        line.append(")");
        Some(line)
    }

    /// The closing line; an error where there is no sample.
    pub fn finish(&self) -> (r: Result<String>)
        ensures
            match r {
                Ok(line) => self.samples > 0 && line@ == "  Final: "@ + text::decimal(
                    self.samples as nat,
                ) + " samples, "@ + text::decimal(self.skipped as nat) + " skipped, "@
                    + text::decimal(self.total_oov as nat) + " total OOV words"@,
                Err(e) => self.samples == 0 && e@ == ErrorView::Config(
                    "No valid training samples after processing"@,
                ),
            },
    {
        if self.samples == 0 {
            return Err(Error::config("No valid training samples after processing"));
        }
        let mut line = "  Final: ".to_owned();
        let samples = decimal_of(self.samples as u64);
        line.append(samples.as_str());
        line.append(" samples, ");
        let skipped = decimal_of(self.skipped as u64);
        line.append(skipped.as_str());
        line.append(" skipped, ");
        let oov = decimal_of(self.total_oov as u64);
        line.append(oov.as_str());
        line.append(" total OOV words");
        Ok(line)
    }
}

// ---------------------------------------------------------------------------
// Resumption
// ---------------------------------------------------------------------------

/// How far earlier runs in a checkpoint directory came.
#[derive(Debug, Clone, Copy, PartialEq, Eq, Structural)]
pub struct ResumeState {
    pub completed_epochs: usize,
    pub elapsed_offset_secs: Real64,
}

/// The name of the checkpoint of an epoch.
pub open spec fn checkpoint_name_of(epoch: nat) -> Seq<char> {
    "speech-aligner-epoch-"@ + text::decimal(epoch)
}

/// The epoch that a checkpoint's name tells.
pub open spec fn epoch_in_name(name: Seq<char>) -> Option<usize> {
    if "speech-aligner-epoch-"@.is_prefix_of(name) {
        text::parsed_usize(name.skip("speech-aligner-epoch-"@.len() as int))
    } else {
        None
    }
}

/// The name of the checkpoint of an epoch.
pub fn checkpoint_name(epoch: usize) -> (r: String)
    ensures
        r@ == checkpoint_name_of(epoch as nat),
{
    let mut name = "speech-aligner-epoch-".to_owned();
    let digits = decimal_of(epoch as u64);
    name.append(digits.as_str());
    name
}

/// The epoch that a checkpoint's name tells.
pub fn checkpoint_epoch_from_name(file_name: &str) -> (r: Option<usize>)
    ensures
        r == epoch_in_name(file_name@),
{
    let chars = chars_of(file_name);
    if !starts_with(chars.as_slice(), "speech-aligner-epoch-") {
        return None;
    }
    let n: usize = chars.len();
    let k: usize = "speech-aligner-epoch-".unicode_len();
    let digits = slice_of(chars.as_slice(), k, n);
    assert(digits@ =~= file_name@.skip(k as int));
    parse_usize(digits.as_slice())
}

/// A checkpoint's name tells its epoch.
pub proof fn law_checkpoint_name_round_trip(epoch: nat)
    requires
        epoch <= usize::MAX,
    ensures
        epoch_in_name(checkpoint_name_of(epoch)) == Some(epoch as usize),
{
    let prefix = "speech-aligner-epoch-"@;
    let name = checkpoint_name_of(epoch);
    assert(name.subrange(0, prefix.len() as int) =~= prefix);
    assert(name.skip(prefix.len() as int) =~= text::decimal(epoch));
    text::law_decimal_round_trip(epoch);
}

/// The non-negative integer that `serde_json` reads under `key` in the object
/// that `line` holds.
pub uninterp spec fn unsigned_field(line: Seq<char>, key: Seq<char>) -> Option<u64>;

/// The bits of the number that `serde_json` reads under `key` in the object
/// that `line` holds.
pub uninterp spec fn number_field(line: Seq<char>, key: Seq<char>) -> Option<u64>;

/// `serde_json::from_str` to a `serde_json::Value`, then its `get` and
/// `as_u64`: which integer stands under a key depends on the line and the key
/// alone. What counts as JSON is left to `serde_json`.
#[verifier::external_body]
fn json_unsigned(line: &str, key: &str) -> (r: Option<u64>)
    ensures
        r == unsigned_field(line@, key@),
{
    let value = serde_json::from_str::<serde_json::Value>(line).ok()?;
    value.get(key)?.as_u64()
}

/// `serde_json::from_str` to a `serde_json::Value`, then its `get` and
/// `as_f64`: which number stands under a key depends on the line and the key
/// alone. What counts as JSON is left to `serde_json`.
#[verifier::external_body]
fn json_number(line: &str, key: &str) -> (r: Option<u64>)
    ensures
        r == number_field(line@, key@),
{
    let value = serde_json::from_str::<serde_json::Value>(line).ok()?;
    value.get(key)?.as_f64().map(|x| x.to_bits())
}

/// What a metric line says on the progress of a run.
#[derive(Debug, Clone, Copy, PartialEq, Eq, Structural)]
pub struct MetricLine {
    pub epoch: Option<u64>,
    pub epochs: Option<u64>,
    pub elapsed_secs: Option<Real64>,
    pub total_secs: Option<Real64>,
}

pub open spec fn real_of(bits: Option<u64>) -> Option<Real64> {
    match bits {
        Some(b) => Some(Real64 { bits: b }),
        None => None,
    }
}

pub open spec fn metric_line_of(line: Seq<char>) -> MetricLine {
    MetricLine {
        epoch: unsigned_field(line, "epoch"@),
        epochs: unsigned_field(line, "epochs"@),
        elapsed_secs: real_of(number_field(line, "elapsed_secs"@)),
        total_secs: real_of(number_field(line, "total_secs"@)),
    }
}

/// Reads a metric line. A line that is not JSON says nothing.
pub fn read_metric_line(line: &str) -> (r: MetricLine)
    ensures
        r == metric_line_of(line@),
{
    let elapsed_secs = match json_number(line, "elapsed_secs") {
        Some(bits) => Some(Real64::new(bits)),
        None => None,
    };
    let total_secs = match json_number(line, "total_secs") {
        Some(bits) => Some(Real64::new(bits)),
        None => None,
    };
    MetricLine {
        epoch: json_unsigned(line, "epoch"),
        epochs: json_unsigned(line, "epochs"),
        elapsed_secs,
        total_secs,
    }
}

/// `raw` where it fits.
pub open spec fn fitting(raw: Option<u64>) -> Option<usize> {
    match raw {
        Some(n) => if n <= usize::MAX {
            Some(n as usize)
        } else {
            None
        },
        None => None,
    }
}

fn fit(raw: Option<u64>) -> (r: Option<usize>)
    ensures
        r == fitting(raw),
{
    match raw {
        Some(n) => if n <= usize::MAX as u64 {
            Some(n as usize)
        } else {
            None
        },
        None => None,
    }
}

/// The epoch that a metric line tells: its own, or the number of epochs at the
/// end of a run.
pub open spec fn epoch_in_line(line: MetricLine) -> Option<usize> {
    match fitting(line.epoch) {
        Some(n) => Some(n),
        None => fitting(line.epochs),
    }
}

/// The time that a metric line tells.
pub open spec fn time_in_line(line: MetricLine) -> Option<Real64> {
    match line.elapsed_secs {
        Some(e) => Some(e),
        None => line.total_secs,
    }
}

impl ResumeState {
    pub open spec fn start() -> ResumeState {
        ResumeState { completed_epochs: 0, elapsed_offset_secs: Real64 { bits: 0 } }
    }

    /// With an epoch that was completed.
    pub open spec fn with_epoch(self, epoch: Option<usize>) -> ResumeState {
        match epoch {
            Some(n) => if n > self.completed_epochs {
                ResumeState { completed_epochs: n, ..self }
            } else {
                self
            },
            None => self,
        }
    }

    /// With a time that had passed.
    pub open spec fn with_elapsed(self, elapsed: Option<Real64>) -> ResumeState {
        match elapsed {
            Some(e) => if self.elapsed_offset_secs.less(e) {
                ResumeState { elapsed_offset_secs: e, ..self }
            } else {
                self
            },
            None => self,
        }
    }

    /// With what a metric line says: its epoch, or the number of epochs at the
    /// end of a run, and the time that had passed.
    pub open spec fn with_line(self, line: MetricLine) -> ResumeState {
        self.with_epoch(epoch_in_line(line)).with_elapsed(time_in_line(line))
    }

    /// With what a metric line says.
    pub fn add_line(self, line: MetricLine) -> (r: Self)
        ensures
            r == self.with_line(line),
    {
        let epoch = match fit(line.epoch) {
            Some(n) => Some(n),
            None => fit(line.epochs),
        };
        let elapsed = match line.elapsed_secs {
            Some(e) => Some(e),
            None => line.total_secs,
        };
        let with_epoch = self.add_epoch(epoch);
        match elapsed {
            Some(e) => if with_epoch.elapsed_offset_secs.lt(e) {
                ResumeState {
                    completed_epochs: with_epoch.completed_epochs,
                    elapsed_offset_secs: e,
                }
            } else {
                with_epoch
            },
            None => with_epoch,
        }
    }

    /// With an epoch that was completed.
    pub fn add_epoch(self, epoch: Option<usize>) -> (r: Self)
        ensures
            r == self.with_epoch(epoch),
    {
        match epoch {
            Some(n) => if n > self.completed_epochs {
                ResumeState {
                    completed_epochs: n,
                    elapsed_offset_secs: self.elapsed_offset_secs,
                }
            } else {
                self
            },
            None => self,
        }
    }
}

/// The state that the names of the files in a checkpoint directory tell.
pub open spec fn from_names(start: ResumeState, names: Seq<Seq<char>>) -> ResumeState
    decreases names.len(),
{
    if names.len() == 0 {
        start
    } else {
        from_names(start, names.drop_last()).with_epoch(epoch_in_name(names.last()))
    }
}

/// The state that metric lines tell.
pub open spec fn from_lines(start: ResumeState, lines: Seq<Seq<char>>) -> ResumeState
    decreases lines.len(),
{
    if lines.len() == 0 {
        start
    } else {
        from_lines(start, lines.drop_last()).with_line(metric_line_of(lines.last()))
    }
}

/// The epoch that the checkpoint to resume from is of, if its name tells.
pub open spec fn resume_epoch(name: Option<Seq<char>>) -> Option<usize> {
    match name {
        Some(n) => epoch_in_name(n),
        None => None,
    }
}

/// How far earlier runs came, by the checkpoint that is resumed from, the names
/// in the checkpoint directory and the metric lines.
pub open spec fn collected(
    resume_from: Option<Seq<char>>,
    names: Seq<Seq<char>>,
    lines: Seq<Seq<char>>,
) -> ResumeState {
    from_lines(
        from_names(ResumeState::start().with_epoch(resume_epoch(resume_from)), names),
        lines,
    )
}

/// How far earlier runs came: as far as the checkpoint that is resumed from,
/// the checkpoints of the directory and its metric lines say.
pub fn collect_resume_state(
    resume_from: Option<&str>,
    names: &Vec<String>,
    lines: &Vec<String>,
) -> (r: ResumeState)
    ensures
        r == collected(
            match resume_from {
                Some(name) => Some(name@),
                None => None,
            },
            text::strings(names@),
            text::strings(lines@),
        ),
{
    let mut state = ResumeState { completed_epochs: 0, elapsed_offset_secs: Real64 { bits: 0 } };
    if let Some(name) = resume_from {
        state = state.add_epoch(checkpoint_epoch_from_name(name));
    }
    let ghost start = state;
    let ghost all_names = text::strings(names@);
    let n: usize = names.len();
    let mut i: usize = 0;
    assert(all_names.take(0) =~= Seq::<Seq<char>>::empty());
    while i < n
        invariant
            n == names@.len(),
            i <= n,
            all_names == text::strings(names@),
            state == from_names(start, all_names.take(i as int)),
        decreases n - i,
    {
        let ghost upto = all_names.take(i + 1);
        assert(upto.drop_last() =~= all_names.take(i as int));
        assert(upto.last() == names@[i as int]@);
        state = state.add_epoch(checkpoint_epoch_from_name(names[i].as_str()));
        i = i + 1;
    }
    assert(all_names.take(n as int) =~= all_names);
    let ghost named = state;
    let ghost all_lines = text::strings(lines@);
    let m: usize = lines.len();
    let mut k: usize = 0;
    assert(all_lines.take(0) =~= Seq::<Seq<char>>::empty());
    while k < m
        invariant
            m == lines@.len(),
            k <= m,
            all_lines == text::strings(lines@),
            state == from_lines(named, all_lines.take(k as int)),
        decreases m - k,
    {
        let ghost upto = all_lines.take(k + 1);
        assert(upto.drop_last() =~= all_lines.take(k as int));
        assert(upto.last() == lines@[k as int]@);
        state = state.add_line(read_metric_line(lines[k].as_str()));
        k = k + 1;
    }
    assert(all_lines.take(m as int) =~= all_lines);
    state
}

/// Nothing that is read takes the state back.
pub proof fn law_resume_state_grows(start: ResumeState, lines: Seq<Seq<char>>)
    requires
        !start.elapsed_offset_secs.nan(),
    ensures
        from_lines(start, lines).completed_epochs >= start.completed_epochs,
        start.elapsed_offset_secs.at_most(from_lines(start, lines).elapsed_offset_secs),
    decreases lines.len(),
{
    if lines.len() > 0 {
        law_resume_state_grows(start, lines.drop_last());
    }
}

proof fn lemma_names_bound(start: ResumeState, names: Seq<Seq<char>>, i: int)
    requires
        0 <= i < names.len(),
    ensures
        from_names(start, names).completed_epochs >= start.completed_epochs,
        epoch_in_name(names[i]) matches Some(n) ==> from_names(start, names).completed_epochs >= n,
    decreases names.len(),
{
    if names.len() > 1 {
        lemma_names_bound(
            start,
            names.drop_last(),
            if i < names.len() - 1 {
                i
            } else {
                0
            },
        );
    } else {
        assert(names.drop_last() =~= Seq::<Seq<char>>::empty());
        assert(from_names(start, names.drop_last()) == start);
    }
}

proof fn lemma_names_reach(start: ResumeState, names: Seq<Seq<char>>)
    ensures
        from_names(start, names).elapsed_offset_secs == start.elapsed_offset_secs,
        from_names(start, names).completed_epochs >= start.completed_epochs,
        from_names(start, names).completed_epochs == start.completed_epochs || exists|i: int|
            0 <= i < names.len() && #[trigger] epoch_in_name(names[i]) == Some(
                from_names(start, names).completed_epochs,
            ),
    decreases names.len(),
{
    if names.len() > 0 {
        let front = names.drop_last();
        lemma_names_reach(start, front);
        let before = from_names(start, front);
        let after = from_names(start, names);
        if after.completed_epochs != before.completed_epochs {
            assert(epoch_in_name(names[names.len() - 1]) == Some(after.completed_epochs));
        } else if before.completed_epochs != start.completed_epochs {
            let i = choose|i: int|
                0 <= i < front.len() && #[trigger] epoch_in_name(front[i]) == Some(
                    before.completed_epochs,
                );
            assert(epoch_in_name(names[i]) == Some(after.completed_epochs));
        }
    }
}

proof fn lemma_lines_bound(start: ResumeState, lines: Seq<Seq<char>>, i: int)
    requires
        0 <= i < lines.len(),
    ensures
        epoch_in_line(metric_line_of(lines[i])) matches Some(n) ==> from_lines(
            start,
            lines,
        ).completed_epochs >= n,
    decreases lines.len(),
{
    if i < lines.len() - 1 {
        lemma_lines_bound(start, lines.drop_last(), i);
    }
}

proof fn lemma_lines_reach(start: ResumeState, lines: Seq<Seq<char>>)
    ensures
        from_lines(start, lines).completed_epochs >= start.completed_epochs,
        from_lines(start, lines).completed_epochs == start.completed_epochs || exists|i: int|
            0 <= i < lines.len() && #[trigger] epoch_in_line(metric_line_of(lines[i])) == Some(
                from_lines(start, lines).completed_epochs,
            ),
    decreases lines.len(),
{
    if lines.len() > 0 {
        let front = lines.drop_last();
        lemma_lines_reach(start, front);
        let before = from_lines(start, front);
        let after = from_lines(start, lines);
        if after.completed_epochs != before.completed_epochs {
            assert(epoch_in_line(metric_line_of(lines[lines.len() - 1])) == Some(
                after.completed_epochs,
            ));
        } else if before.completed_epochs != start.completed_epochs {
            let i = choose|i: int|
                0 <= i < front.len() && #[trigger] epoch_in_line(metric_line_of(front[i])) == Some(
                    before.completed_epochs,
                );
            assert(epoch_in_line(metric_line_of(lines[i])) == Some(after.completed_epochs));
        }
    }
}

/// A run resumes behind every epoch that is told: by the checkpoint that is
/// resumed from, by the name of a checkpoint in the directory, or by a metric
/// line.
pub proof fn law_resume_behind_every_epoch(
    resume_from: Option<Seq<char>>,
    names: Seq<Seq<char>>,
    lines: Seq<Seq<char>>,
    i: int,
)
    ensures
        resume_epoch(resume_from) matches Some(n) ==> collected(
            resume_from,
            names,
            lines,
        ).completed_epochs >= n,
        0 <= i < names.len() ==> (epoch_in_name(names[i]) matches Some(n) ==> collected(
            resume_from,
            names,
            lines,
        ).completed_epochs >= n),
        0 <= i < lines.len() ==> (epoch_in_line(metric_line_of(lines[i])) matches Some(n)
            ==> collected(resume_from, names, lines).completed_epochs >= n),
{
    let start = ResumeState::start().with_epoch(resume_epoch(resume_from));
    let named = from_names(start, names);
    lemma_names_reach(start, names);
    lemma_lines_reach(named, lines);
    if 0 <= i < names.len() {
        lemma_names_bound(start, names, i);
    }
    if 0 <= i < lines.len() {
        lemma_lines_bound(named, lines, i);
    }
}

/// A run resumes behind no later epoch: the epoch is one that is told, or none
/// was.
pub proof fn law_resume_behind_no_later_epoch(
    resume_from: Option<Seq<char>>,
    names: Seq<Seq<char>>,
    lines: Seq<Seq<char>>,
)
    ensures
        ({
            let epoch = collected(resume_from, names, lines).completed_epochs;
            ||| epoch == 0
            ||| resume_epoch(resume_from) == Some(epoch)
            ||| exists|i: int|
                0 <= i < names.len() && #[trigger] epoch_in_name(names[i]) == Some(epoch)
            ||| exists|i: int|
                0 <= i < lines.len() && #[trigger] epoch_in_line(metric_line_of(lines[i])) == Some(
                    epoch,
                )
        }),
{
    let start = ResumeState::start().with_epoch(resume_epoch(resume_from));
    lemma_names_reach(start, names);
    lemma_lines_reach(from_names(start, names), lines);
}

/// The time of earlier runs is no less than any that a metric line tells.
pub proof fn law_resume_keeps_longest_time(
    resume_from: Option<Seq<char>>,
    names: Seq<Seq<char>>,
    lines: Seq<Seq<char>>,
    i: int,
)
    requires
        0 <= i < lines.len(),
    ensures
        time_in_line(metric_line_of(lines[i])) matches Some(t) ==> !t.nan() ==> t.at_most(
            collected(resume_from, names, lines).elapsed_offset_secs,
        ),
    decreases lines.len(),
{
    let start = ResumeState::start().with_epoch(resume_epoch(resume_from));
    lemma_names_reach(start, names);
    law_resume_state_grows(from_names(start, names), lines.drop_last());
    if i < lines.len() - 1 {
        law_resume_keeps_longest_time(resume_from, names, lines.drop_last(), i);
    }
}

// ---------------------------------------------------------------------------
// The run
// ---------------------------------------------------------------------------

/// Batches from the shortest to the longest in even epochs, the other way
/// round in odd ones.
pub open spec fn batch_at(epoch: int, total: int, index: int) -> int {
    if epoch % 2 == 1 {
        total - 1 - index
    } else {
        index
    }
}

/// What a training run is at.
#[derive(Debug, Clone, Copy, PartialEq, Eq, Structural)]
pub enum TrainPhase {
    /// The start of an epoch: batches are to be made.
    Plan,
    /// Batch `index` of `total`.
    Batch { index: usize, total: usize },
    /// The end of the epoch.
    Close,
    Finished,
}

/// What is to be done next.
#[derive(Debug, Clone, Copy, PartialEq, Eq, Structural)]
pub enum TrainAction {
    /// Make the batches of epoch `epoch`.
    MakeBatches { epoch: usize },
    /// Train on batch `batch` in order of length. A metric line is written
    /// afterwards if `emit`.
    Train { epoch: usize, index: usize, total: usize, batch: usize, emit: bool },
    /// Report epoch `epoch`, of which so many batches counted, and save a
    /// checkpoint if `save`.
    CloseEpoch { epoch: usize, batches: usize, save: bool },
    /// Save the final model and write the report.
    Finish,
}

/// The state of a training run.
#[derive(Debug, Clone, Copy, PartialEq, Eq, Structural)]
pub struct TrainRun {
    /// Epochs of this run.
    pub epochs: usize,
    /// Epochs of earlier runs.
    pub completed: usize,
    /// Batches between two metric lines.
    pub metric_interval: usize,
    /// Epochs between two checkpoints; zero for the final one only.
    pub checkpoint_interval: usize,
    /// The present epoch of this run, counted from zero.
    pub epoch: usize,
    pub phase: TrainPhase,
    /// Batches of this epoch that counted.
    pub batches: usize,
}

impl TrainRun {
    /// The number of the present epoch, earlier runs included.
    pub open spec fn epoch_number(self) -> int {
        self.completed + self.epoch + 1
    }

    /// The state makes sense.
    pub open spec fn valid(self) -> bool {
        &&& self.metric_interval > 0
        &&& self.completed + self.epochs <= usize::MAX
        &&& self.phase == TrainPhase::Finished || self.epoch < self.epochs
        &&& match self.phase {
            TrainPhase::Batch { index, total } => index < total && self.batches <= index,
            _ => true,
        }
    }

    /// A run of `epochs` epochs behind `completed` earlier ones.
    pub fn new(
        epochs: usize,
        completed: usize,
        metric_interval: usize,
        checkpoint_interval: usize,
    ) -> (r: Self)
        requires
            metric_interval > 0,
            completed + epochs <= usize::MAX,
        ensures
            r.valid(),
            r == (TrainRun {
                epochs,
                completed,
                metric_interval,
                checkpoint_interval,
                epoch: 0,
                phase: if epochs == 0 {
                    TrainPhase::Finished
                } else {
                    TrainPhase::Plan
                },
                batches: 0,
            }),
    {
        TrainRun {
            epochs,
            completed,
            metric_interval,
            checkpoint_interval,
            epoch: 0,
            phase: if epochs == 0 {
                TrainPhase::Finished
            } else {
                TrainPhase::Plan
            },
            batches: 0,
        }
    }

    pub open spec fn save_due(self) -> bool {
        self.checkpoint_interval > 0 && self.epoch_number() % (self.checkpoint_interval as int) == 0
    }

    /// What is to be done in this state.
    pub open spec fn due(self) -> TrainAction {
        let epoch = self.epoch_number() as usize;
        match self.phase {
            TrainPhase::Plan => TrainAction::MakeBatches { epoch },
            TrainPhase::Batch { index, total } => TrainAction::Train {
                epoch,
                index,
                total,
                batch: batch_at(self.epoch as int, total as int, index as int) as usize,
                emit: (index + 1) % (self.metric_interval as int) == 0 || index + 1 == total,
            },
            TrainPhase::Close => TrainAction::CloseEpoch {
                epoch,
                batches: self.batches,
                save: self.save_due(),
            },
            TrainPhase::Finished => TrainAction::Finish,
        }
    }

    /// What is to be done next.
    pub fn action(&self) -> (r: TrainAction)
        requires
            self.valid(),
        ensures
            r == self.due(),
            r matches TrainAction::Train { batch, total, .. } ==> batch < total,
    {
        match self.phase {
            TrainPhase::Plan => TrainAction::MakeBatches {
                epoch: self.completed + self.epoch + 1,
            },
            TrainPhase::Batch { index, total } => TrainAction::Train {
                epoch: self.completed + self.epoch + 1,
                index,
                total,
                batch: if self.epoch % 2 == 1 {
                    total - 1 - index
                } else {
                    index
                },
                emit: (index + 1) % self.metric_interval == 0 || index + 1 == total,
            },
            TrainPhase::Close => {
                let epoch: usize = self.completed + self.epoch + 1;
                TrainAction::CloseEpoch {
                    epoch,
                    batches: self.batches,
                    save: self.checkpoint_interval > 0 && epoch % self.checkpoint_interval == 0,
                }
            },
            TrainPhase::Finished => TrainAction::Finish,
        }
    }

    /// The state once the batches of an epoch are made.
    pub open spec fn after_planning(self, total: usize) -> TrainRun {
        TrainRun {
            phase: if total == 0 {
                TrainPhase::Close
            } else {
                TrainPhase::Batch { index: 0, total }
            },
            batches: 0,
            ..self
        }
    }

    /// Goes on to the batches of the epoch, of which there are `total`.
    pub fn planned(&mut self, total: usize)
        requires
            old(self).valid(),
            old(self).phase == TrainPhase::Plan,
        ensures
            *final(self) == old(self).after_planning(total),
            final(self).valid(),
    {
        self.phase = if total == 0 {
            TrainPhase::Close
        } else {
            TrainPhase::Batch { index: 0, total }
        };
        self.batches = 0;
    }

    /// The state after a batch of the given loss: one whose loss is not finite
    /// does not count.
    pub open spec fn after_batch(self, loss: Real32) -> TrainRun {
        match self.phase {
            TrainPhase::Batch { index, total } => TrainRun {
                phase: if index + 1 < total {
                    TrainPhase::Batch { index: (index + 1) as usize, total }
                } else {
                    TrainPhase::Close
                },
                batches: if loss.finite() {
                    (self.batches + 1) as usize
                } else {
                    self.batches
                },
                ..self
            },
            _ => self,
        }
    }

    /// Goes on to the next batch. Tells whether this one changes the weights.
    pub fn trained(&mut self, loss: Real32) -> (r: bool)
        requires
            old(self).valid(),
            old(self).phase is Batch,
        ensures
            *final(self) == old(self).after_batch(loss),
            final(self).valid(),
            r == loss.finite(),
    {
        let counts = loss.is_finite();
        match self.phase {
            TrainPhase::Batch { index, total } => {
                if counts {
                    self.batches = self.batches + 1;
                }
                self.phase = if index + 1 < total {
                    TrainPhase::Batch { index: index + 1, total }
                } else {
                    TrainPhase::Close
                };
            },
            _ => {},
        }
        counts
    }

    /// The state after the end of an epoch.
    pub open spec fn after_close(self) -> TrainRun {
        TrainRun {
            epoch: (self.epoch + 1) as usize,
            phase: if self.epoch + 1 < self.epochs {
                TrainPhase::Plan
            } else {
                TrainPhase::Finished
            },
            ..self
        }
    }

    /// Goes on to the next epoch.
    pub fn closed(&mut self)
        requires
            old(self).valid(),
            old(self).phase == TrainPhase::Close,
        ensures
            *final(self) == old(self).after_close(),
            final(self).valid(),
    {
        self.epoch = self.epoch + 1;
        self.phase = if self.epoch < self.epochs {
            TrainPhase::Plan
        } else {
            TrainPhase::Finished
        };
    }
}

/// A run goes forward: what ends a phase leads to a later phase of its epoch, to
/// the next batch, or to the next epoch; and no more batches count than were
/// trained on.
pub proof fn law_training_goes_forward(run: TrainRun, total: usize, loss: Real32)
    requires
        run.valid(),
    ensures
        run.phase == TrainPhase::Plan ==> ({
            let next = run.after_planning(total);
            next.valid() && next.epoch == run.epoch && next.batches == 0 && if total == 0 {
                next.phase == TrainPhase::Close
            } else {
                next.phase == (TrainPhase::Batch { index: 0, total })
            }
        }),
        run.phase matches TrainPhase::Batch { index, total: of } ==> ({
            let next = run.after_batch(loss);
            next.valid() && next.epoch == run.epoch && next.batches <= index + 1 && (next.phase
                == TrainPhase::Close <==> index + 1 == of)
        }),
        run.phase == TrainPhase::Close ==> run.after_close().valid() && run.after_close().epoch
            == run.epoch + 1,
{
}

/// In every epoch each batch is trained on exactly once, whichever way round
/// the epoch goes.
pub proof fn law_every_batch_once(epoch: int, total: int, batch: int)
    requires
        0 <= batch < total,
    ensures
        exists|i: int| 0 <= i < total && #[trigger] batch_at(epoch, total, i) == batch,
        forall|i: int, j: int|
            #[trigger] batch_at(epoch, total, i) == batch && #[trigger] batch_at(epoch, total, j)
                == batch ==> i == j,
{
    let i = if epoch % 2 == 1 {
        total - 1 - batch
    } else {
        batch
    };
    assert(batch_at(epoch, total, i) == batch);
}

/// Two epochs that follow each other go through the batches in opposite
/// directions.
pub proof fn law_epochs_alternate(epoch: int, total: int, index: int)
    requires
        0 <= index < total,
    ensures
        batch_at(epoch + 1, total, index) == batch_at(epoch, total, total - 1 - index),
{
}

/// The first and the last average loss, where both are finite and the first is
/// not zero: what a run achieved.
pub fn loss_reduction(losses: &Vec<Real32>) -> (r: Option<(Real32, Real32)>)
    ensures
        r == if losses@.len() > 0 && losses@[0].finite() && losses@.last().finite() && (Real32 {
            bits: EPSILON_32,
        }).less(losses@[0].magnitude()) {
            Some((losses@[0], losses@.last()))
        } else {
            None
        },
{
    let n: usize = losses.len();
    if n == 0 {
        return None;
    }
    let first: Real32 = losses[0];
    let last: Real32 = losses[n - 1];
    if first.is_finite() && last.is_finite() && Real32::new(EPSILON_32).lt(first.abs()) {
        Some((first, last))
    } else {
        None
    }
}

// ---------------------------------------------------------------------------
// Metric lines
// ---------------------------------------------------------------------------

/// A batch of a training run, for the metrics file.
pub struct TrainBatchMetrics {
    pub epoch: usize,
    pub batch: usize,
    pub total_batches: usize,
    pub batch_samples: usize,
    pub loss: String,
    pub samples_per_sec: String,
    pub elapsed_secs: String,
}

pub open spec fn batch_json(m: TrainBatchMetrics) -> Seq<char> {
    "{\"event\":\"batch\",\"epoch\":"@ + text::decimal(m.epoch as nat) + ",\"batch\":"@
        + text::decimal(m.batch as nat) + ",\"total_batches\":"@ + text::decimal(
        m.total_batches as nat,
    ) + ",\"batch_samples\":"@ + text::decimal(m.batch_samples as nat) + ",\"loss\":"@ + m.loss@
        + ",\"samples_per_sec\":"@ + m.samples_per_sec@ + ",\"elapsed_secs\":"@ + m.elapsed_secs@
        + "}\n"@
}

/// The metric line of a batch.
pub fn batch_line(m: &TrainBatchMetrics) -> (r: String)
    ensures
        r@ == batch_json(*m),
{
    let mut out = "{\"event\":\"batch\",\"epoch\":".to_owned();
    let epoch = decimal_of(m.epoch as u64);
    out.append(epoch.as_str());
    out.append(",\"batch\":");
    let batch = decimal_of(m.batch as u64);
    out.append(batch.as_str());
    out.append(",\"total_batches\":");
    let total = decimal_of(m.total_batches as u64);
    out.append(total.as_str());
    out.append(",\"batch_samples\":");
    let samples = decimal_of(m.batch_samples as u64);
    out.append(samples.as_str());
    out.append(",\"loss\":");
    out.append(m.loss.as_str());
    out.append(",\"samples_per_sec\":");
    out.append(m.samples_per_sec.as_str());
    out.append(",\"elapsed_secs\":");
    out.append(m.elapsed_secs.as_str());
    out.append("}\n");
    out
}

/// An epoch of a training run, for the metrics file.
pub struct TrainEpochMetrics {
    pub epoch: usize,
    pub total_epochs: usize,
    pub avg_loss: String,
    pub batches: usize,
    pub epoch_secs: String,
    pub throughput: String,
    pub elapsed_secs: String,
    pub eta_secs: String,
}

pub open spec fn epoch_json(m: TrainEpochMetrics) -> Seq<char> {
    "{\"event\":\"epoch\",\"epoch\":"@ + text::decimal(m.epoch as nat) + ",\"total_epochs\":"@
        + text::decimal(m.total_epochs as nat) + ",\"avg_loss\":"@ + m.avg_loss@
        + ",\"batches\":"@ + text::decimal(m.batches as nat) + ",\"epoch_secs\":"@ + m.epoch_secs@
        + ",\"throughput\":"@ + m.throughput@ + ",\"elapsed_secs\":"@ + m.elapsed_secs@
        + ",\"eta_secs\":"@ + m.eta_secs@ + "}\n"@
}

/// The metric line of an epoch.
pub fn epoch_line(m: &TrainEpochMetrics) -> (r: String)
    ensures
        r@ == epoch_json(*m),
{
    let mut out = "{\"event\":\"epoch\",\"epoch\":".to_owned();
    let epoch = decimal_of(m.epoch as u64);
    out.append(epoch.as_str());
    out.append(",\"total_epochs\":");
    let total = decimal_of(m.total_epochs as u64);
    out.append(total.as_str());
    out.append(",\"avg_loss\":");
    out.append(m.avg_loss.as_str());
    out.append(",\"batches\":");
    let batches = decimal_of(m.batches as u64);
    out.append(batches.as_str());
    out.append(",\"epoch_secs\":");
    out.append(m.epoch_secs.as_str());
    out.append(",\"throughput\":");
    out.append(m.throughput.as_str());
    out.append(",\"elapsed_secs\":");
    out.append(m.elapsed_secs.as_str());
    out.append(",\"eta_secs\":");
    out.append(m.eta_secs.as_str());
    out.append("}\n");
    out
}

// ---------------------------------------------------------------------------
// Reports
// ---------------------------------------------------------------------------

pub open spec fn model_part(backend: Seq<char>, params: nat) -> Seq<char> {
    "**Burn Version**: 0.21.0-pre.2\n"@ + markdown::field("Backend"@, backend)
        + "**Model**: SpeechAligner (4x ConvSE + Self-Attention + Triple Head)\n"@
        + markdown::field("Parameters"@, text::decimal(params))
}

fn model_text(backend: &str, params: usize) -> (r: String)
    ensures
        r@ == model_part(backend@, params as nat),
{
    let mut out = "**Burn Version**: 0.21.0-pre.2\n".to_owned();
    push_field(&mut out, "Backend", backend);
    out.append("**Model**: SpeechAligner (4x ConvSE + Self-Attention + Triple Head)\n");
    push_count(&mut out, "Parameters", params);
    out
}

/// The report on a training run that ended at `date`.
pub open spec fn training_report(
    date: Seq<char>,
    args: TrainRealArgs,
    learning_rate: Seq<char>,
    losses: Seq<Seq<char>>,
    params: nat,
    num_samples: nat,
    backend: Seq<char>,
) -> Seq<char> {
    "# SpeechAligner Real-Data Training Report\n\n"@ + markdown::field("Date"@, date) + model_part(
        backend,
        params,
    ) + markdown::field("Dataset"@, args.data_dir@) + markdown::field("Split"@, args.split@)
        + markdown::field("Samples"@, text::decimal(num_samples)) + markdown::field(
        "Epochs"@,
        text::decimal(args.epochs as nat),
    ) + markdown::field("Batch Size"@, text::decimal(args.batch_size as nat)) + markdown::field(
        "Learning Rate"@,
        learning_rate,
    ) + markdown::field("Checkpoint"@, args.checkpoint_dir@) + "\n"@
        + "---\n\n## Loss Curve\n\n"@ + "| Epoch | Avg Loss |\n|---|---|\n"@
        + markdown::loss_rows(losses)
        + "\n## Specification References\n\n- Data: LibriSpeech\n"@
}

/// Writes the report on a training run that ended at `date`.
pub fn write_training_report(
    date: &str,
    args: &TrainRealArgs,
    learning_rate: &str,
    losses: &Vec<String>,
    params: usize,
    num_samples: usize,
    backend_name: &str,
) -> (r: String)
    ensures
        r@ == training_report(
            date@,
            *args,
            learning_rate@,
            text::strings(losses@),
            params as nat,
            num_samples as nat,
            backend_name@,
        ),
{
    let mut out = "# SpeechAligner Real-Data Training Report\n\n".to_owned();
    push_field(&mut out, "Date", date);
    let model = model_text(backend_name, params);
    out.append(model.as_str());
    push_field(&mut out, "Dataset", args.data_dir.as_str());
    push_field(&mut out, "Split", args.split.as_str());
    push_count(&mut out, "Samples", num_samples);
    push_count(&mut out, "Epochs", args.epochs);
    push_count(&mut out, "Batch Size", args.batch_size);
    push_field(&mut out, "Learning Rate", learning_rate);
    push_field(&mut out, "Checkpoint", args.checkpoint_dir.as_str());
    out.append("\n");
    out.append("---\n\n## Loss Curve\n\n");
    out.append("| Epoch | Avg Loss |\n|---|---|\n");
    push_loss_rows(&mut out, losses);
    out.append("\n## Specification References\n\n- Data: LibriSpeech\n");
    out
}

/// Writes the report on a training run that ends now.
pub fn generate_training_report(
    args: &TrainRealArgs,
    learning_rate: &str,
    losses: &Vec<String>,
    params: usize,
    num_samples: usize,
    backend_name: &str,
) -> (r: String)
    ensures
        exists|date: Seq<char>|
            clock::names_minute(date) && #[trigger] training_report(
                date,
                *args,
                learning_rate@,
                text::strings(losses@),
                params as nat,
                num_samples as nat,
                backend_name@,
            ) == r@,
{
    let date = utc_minute();
    write_training_report(
        date.as_str(),
        args,
        learning_rate,
        losses,
        params,
        num_samples,
        backend_name,
    )
}

/// The numbers of a precomputed training run.
pub struct PrecomputedRun {
    pub learning_rate: String,
    /// The duration cap of the cache, rounded, where its manifest has one.
    pub duration_cap: Option<String>,
    pub losses: Vec<String>,
    pub params: usize,
    pub num_samples: usize,
    pub backend_name: String,
    pub attention_heads: usize,
}

pub open spec fn duration_cap_text(cap: Option<String>) -> Seq<char> {
    match cap {
        Some(secs) => secs@ + "s"@,
        None => "unknown (legacy manifest)"@,
    }
}

pub open spec fn resume_part(resume_from: Option<String>) -> Seq<char> {
    match resume_from {
        Some(path) => markdown::field("Resume From"@, path@),
        None => seq![],
    }
}

/// The part of the report on the cache that was trained on.
pub open spec fn cache_part(
    args: TrainPrecomputedArgs,
    manifest: PrecomputedManifest,
    run: PrecomputedRun,
) -> Seq<char> {
    markdown::field("Cache Dir"@, args.cache_dir@) + markdown::field(
        "Source Data"@,
        manifest.data_dir@,
    ) + markdown::field("Split"@, manifest.split@) + markdown::field(
        "Duration Cap"@,
        duration_cap_text(run.duration_cap),
    ) + markdown::field("Samples"@, text::decimal(run.num_samples as nat)) + markdown::field(
        "Total Frames"@,
        text::decimal(manifest.total_frames as nat),
    ) + markdown::field("Feature Dim"@, text::decimal(manifest.feature_dim as nat))
        + markdown::field("Total OOV"@, text::decimal(manifest.total_oov as nat))
}

/// The report on a precomputed training run that ended at `date`.
pub open spec fn precomputed_report(
    date: Seq<char>,
    args: TrainPrecomputedArgs,
    manifest: PrecomputedManifest,
    run: PrecomputedRun,
) -> Seq<char> {
    "# SpeechAligner Precomputed Training Report\n\n"@ + markdown::field("Date"@, date)
        + model_part(run.backend_name@, run.params as nat) + cache_part(args, manifest, run)
        + markdown::field("Epochs"@, text::decimal(args.epochs as nat)) + markdown::field(
        "Attention Heads"@,
        text::decimal(run.attention_heads as nat),
    ) + markdown::field(
        "Max Attention Elements"@,
        text::decimal(args.max_attn_elements as nat),
    ) + markdown::field(
        "Max Samples Per Batch"@,
        text::decimal(args.max_samples_per_batch as nat),
    ) + markdown::field("Learning Rate"@, run.learning_rate@) + markdown::field(
        "Checkpoint"@,
        args.checkpoint_dir@,
    ) + resume_part(args.resume_from)
        + "\n---\n\n## Batching Strategy\n\n- Attention-aware dynamic batching (`B × heads × T²`)\n- Precomputed MFCC cache (no on-the-fly extraction)\n\n## Loss Curve\n\n"@
        + "| Epoch | Avg Loss |\n|---|---|\n"@ + markdown::loss_rows(text::strings(run.losses@))
        + "\n## Specification References\n\n- Data: LibriSpeech precomputed MFCC cache\n"@
}

fn cache_text(
    args: &TrainPrecomputedArgs,
    manifest: &PrecomputedManifest,
    run: &PrecomputedRun,
) -> (r: String)
    ensures
        r@ == cache_part(*args, *manifest, *run),
{
    let mut out = String::new();
    push_field(&mut out, "Cache Dir", args.cache_dir.as_str());
    assert(out@ =~= markdown::field("Cache Dir"@, args.cache_dir@));
    push_field(&mut out, "Source Data", manifest.data_dir.as_str());
    push_field(&mut out, "Split", manifest.split.as_str());
    let cap = match &run.duration_cap {
        Some(secs) => {
            let mut text = secs.clone();
            text.append("s");
            text
        },
        None => "unknown (legacy manifest)".to_owned(),
    };
    push_field(&mut out, "Duration Cap", cap.as_str());
    push_count(&mut out, "Samples", run.num_samples);
    push_count(&mut out, "Total Frames", manifest.total_frames);
    push_count(&mut out, "Feature Dim", manifest.feature_dim);
    push_count(&mut out, "Total OOV", manifest.total_oov);
    out
}

/// Writes the report on a precomputed training run that ended at `date`.
pub fn write_precomputed_report(
    date: &str,
    args: &TrainPrecomputedArgs,
    manifest: &PrecomputedManifest,
    run: &PrecomputedRun,
) -> (r: String)
    ensures
        r@ == precomputed_report(date@, *args, *manifest, *run),
{
    let mut out = "# SpeechAligner Precomputed Training Report\n\n".to_owned();
    push_field(&mut out, "Date", date);
    let model = model_text(run.backend_name.as_str(), run.params);
    out.append(model.as_str());
    let cache = cache_text(args, manifest, run);
    out.append(cache.as_str());
    push_count(&mut out, "Epochs", args.epochs);
    push_count(&mut out, "Attention Heads", run.attention_heads);
    push_count(&mut out, "Max Attention Elements", args.max_attn_elements);
    push_count(&mut out, "Max Samples Per Batch", args.max_samples_per_batch);
    push_field(&mut out, "Learning Rate", run.learning_rate.as_str());
    push_field(&mut out, "Checkpoint", args.checkpoint_dir.as_str());
    let ghost before = out@;
    match &args.resume_from {
        Some(path) => {
            push_field(&mut out, "Resume From", path.as_str());
        },
        None => {
            assert(out@ =~= before + Seq::<char>::empty());
        },
    }
    assert(out@ == before + resume_part(args.resume_from));
    out.append(
        "\n---\n\n## Batching Strategy\n\n- Attention-aware dynamic batching (`B × heads × T²`)\n- Precomputed MFCC cache (no on-the-fly extraction)\n\n## Loss Curve\n\n",
    );
    out.append("| Epoch | Avg Loss |\n|---|---|\n");
    push_loss_rows(&mut out, &run.losses);
    out.append("\n## Specification References\n\n- Data: LibriSpeech precomputed MFCC cache\n");
    out
}

/// Writes the report on a precomputed training run that ends now.
pub fn generate_precomputed_training_report(
    args: &TrainPrecomputedArgs,
    manifest: &PrecomputedManifest,
    run: &PrecomputedRun,
) -> (r: String)
    ensures
        exists|date: Seq<char>|
            clock::names_minute(date) && #[trigger] precomputed_report(
                date,
                *args,
                *manifest,
                *run,
            ) == r@,
{
    let date = utc_minute();
    write_precomputed_report(date.as_str(), args, manifest, run)
}

} // verus!
