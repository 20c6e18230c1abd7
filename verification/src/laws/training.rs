//! A training run: in which order the batches go, when metrics are written and
//! when a checkpoint is saved.

use vstd::prelude::*;

use crate::ieee::{Real32, Real64};
use crate::train::{MetricLine, ResumeState, TrainAction, TrainPhase, TrainRun};
use crate::{text, train};

verus! {

/// A run after its first `done` epochs, however many batches each of them had
/// and whatever became of them.
pub open spec fn reaches_epoch(run: TrainRun, start: TrainRun, done: int) -> bool {
    &&& run.epochs == start.epochs
    &&& run.completed == start.completed
    &&& run.metric_interval == start.metric_interval
    &&& run.checkpoint_interval == start.checkpoint_interval
    &&& run.epoch == start.epoch + done
}

/// Whether `n` is one of `k`, `2 * k`, `3 * k`, ...
pub open spec fn multiple(k: int, n: int) -> bool {
    exists|q: int| q > 0 && #[trigger] (k * q) == n
}

pub proof fn lemma_multiple(k: int, n: int)
    requires
        k > 0,
        n > 0,
    ensures
        multiple(k, n) <==> n % k == 0,
{
    vstd::arithmetic::div_mod::lemma_fundamental_div_mod(n, k);
    if n % k == 0 {
        let q = n / k;
        assert(q > 0) by (nonlinear_arith)
            requires
                k * q == n,
                n > 0,
                k > 0,
        ;
        assert(k * q == n);
    }
    if multiple(k, n) {
        let q = choose|q: int| q > 0 && #[trigger] (k * q) == n;
        vstd::arithmetic::div_mod::lemma_mod_multiples_basic(q, k);
        assert(q * k == k * q) by (nonlinear_arith);
    }
}

/// The close of an epoch saves a checkpoint exactly when the interval divides the
/// number that the epoch is reported under; an interval of zero never saves.
pub proof fn law_checkpoints_are_saved_at_the_interval(run: TrainRun)
    requires
        run.valid(),
        run.phase == TrainPhase::Close,
    ensures
        match run.due() {
            TrainAction::CloseEpoch { epoch, save, .. } => epoch > 0 && (save <==> exists|q: int|
                q > 0 && #[trigger] (run.checkpoint_interval * q) == epoch),
            _ => false,
        },
{
    let n = run.epoch_number();
    let k = run.checkpoint_interval as int;
    if k > 0 {
        lemma_multiple(k, n);
        assert(multiple(k, n) <==> exists|q: int|
            q > 0 && #[trigger] (run.checkpoint_interval * q) == n as usize) by {
            if multiple(k, n) {
                let q = choose|q: int| q > 0 && #[trigger] (k * q) == n;
                assert(run.checkpoint_interval * q == n as usize);
            }
            if exists|q: int| q > 0 && #[trigger] (run.checkpoint_interval * q) == n as usize {
                let q = choose|q: int|
                    q > 0 && #[trigger] (run.checkpoint_interval * q) == n as usize;
                assert(k * q == n);
            }
        }
    } else {
        assert forall|q: int| #[trigger] (run.checkpoint_interval * q) == 0 by {
            assert(0 * q == 0) by (nonlinear_arith);
        }
    }
}

/// The epochs of a run are numbered on from those done before it: in the epoch
/// that follows `done` closed ones, every action names `completed + done + 1`.
pub proof fn law_epochs_are_numbered_on(run: TrainRun, start: TrainRun, done: int)
    requires
        run.valid(),
        start.epoch == 0,
        reaches_epoch(run, start, done),
    ensures
        match run.due() {
            TrainAction::MakeBatches { epoch } => epoch == start.completed + done + 1,
            TrainAction::Train { epoch, .. } => epoch == start.completed + done + 1,
            TrainAction::CloseEpoch { epoch, .. } => epoch == start.completed + done + 1,
            TrainAction::Finish => run.phase == TrainPhase::Finished,
        },
{
}

/// Closing an epoch is the only step that goes on to the next one, and no step
/// changes what the run was set up with.
pub proof fn law_only_a_close_ends_an_epoch(
    run: TrainRun,
    start: TrainRun,
    done: int,
    total: usize,
    loss: Real32,
)
    requires
        run.valid(),
        reaches_epoch(run, start, done),
    ensures
        reaches_epoch(run.after_planning(total), start, done),
        reaches_epoch(run.after_batch(loss), start, done),
        run.phase == TrainPhase::Close ==> reaches_epoch(run.after_close(), start, done + 1),
        run.phase == TrainPhase::Close ==> (run.after_close().phase == TrainPhase::Finished
            <==> run.epoch + 1 == run.epochs),
        run.phase == TrainPhase::Close && run.epoch + 1 != run.epochs ==> run.after_close().phase
            == TrainPhase::Plan,
{
}

/// A run from scratch saves at the close of its `i`-th epoch exactly when the
/// interval divides `i`: at the interval, at twice the interval, and so on.
pub proof fn law_fresh_run_saves_at_multiples(run: TrainRun, start: TrainRun, i: int)
    requires
        run.valid(),
        start.epoch == 0,
        start.completed == 0,
        start.checkpoint_interval > 0,
        reaches_epoch(run, start, i - 1),
        run.phase == TrainPhase::Close,
    ensures
        match run.due() {
            TrainAction::CloseEpoch { epoch, save, .. } => epoch == i && (save <==> multiple(
                start.checkpoint_interval as int,
                i,
            )),
            _ => false,
        },
{
    lemma_multiple(start.checkpoint_interval as int, i);
}

/// Metrics are written after every `metric_interval`-th batch of an epoch and
/// after its last one, and after no other.
pub proof fn law_metrics_are_written_at_the_interval(run: TrainRun)
    requires
        run.valid(),
        run.phase is Batch,
    ensures
        match run.due() {
            TrainAction::Train { index, total, emit, .. } => emit <==> (multiple(
                run.metric_interval as int,
                index + 1,
            ) || index == total - 1),
            _ => false,
        },
{
    match run.phase {
        TrainPhase::Batch { index, total } => {
            lemma_multiple(run.metric_interval as int, index + 1);
        },
        _ => {},
    }
}

/// An epoch goes through its batches forwards, the next one backwards: each batch
/// is trained on once per epoch, and two epochs in a row visit them in opposite
/// order.
pub proof fn law_epochs_alternate_direction(epoch: int, total: int, i: int, j: int)
    requires
        0 <= epoch,
        0 <= i < total,
        0 <= j < total,
    ensures
        train::batch_at(0, total, i) == i,
        train::batch_at(epoch + 1, total, i) == total - 1 - train::batch_at(epoch, total, i),
        train::batch_at(epoch + 2, total, i) == train::batch_at(epoch, total, i),
        0 <= train::batch_at(epoch, total, i) < total,
        i != j ==> train::batch_at(epoch, total, i) != train::batch_at(epoch, total, j),
{
}

/// The batch that is due is the one at the run's place in the epoch's order.
pub proof fn law_due_batch(run: TrainRun, at: usize, of: usize)
    requires
        run.valid(),
        run.phase == (TrainPhase::Batch { index: at, total: of }),
    ensures
        match run.due() {
            TrainAction::Train { index, total, batch, .. } => index == at && total == of && batch
                == train::batch_at(run.epoch as int, of as int, at as int),
            _ => false,
        },
{
}

/// A trained batch counts exactly when its loss is finite; the run goes on to the
/// next batch either way, and to the close after the last.
pub proof fn law_batches_are_counted(run: TrainRun, at: usize, of: usize, loss: Real32)
    requires
        run.valid(),
        run.phase == (TrainPhase::Batch { index: at, total: of }),
    ensures
        loss.finite() ==> run.after_batch(loss).batches == run.batches + 1,
        !loss.finite() ==> run.after_batch(loss).batches == run.batches,
        at + 1 < of ==> run.after_batch(loss).phase == (TrainPhase::Batch {
            index: (at + 1) as usize,
            total: of,
        }),
        at + 1 == of ==> run.after_batch(loss).phase == TrainPhase::Close,
{
}

/// An epoch starts with its first batch and nothing counted, and one without
/// batches is closed at once; the close reports what was counted.
pub proof fn law_epoch_starts_afresh(run: TrainRun, total: usize)
    requires
        run.valid(),
        run.phase == TrainPhase::Plan,
    ensures
        run.after_planning(total).batches == 0,
        total > 0 ==> run.after_planning(total).phase == (TrainPhase::Batch { index: 0, total }),
        total == 0 ==> run.after_planning(total).phase == TrainPhase::Close,
        run.after_planning(0).due() matches TrainAction::CloseEpoch { batches, .. } && batches == 0,
{
}

/// The close of an epoch reports the number of batches that counted.
pub proof fn law_close_reports_the_count(run: TrainRun)
    requires
        run.valid(),
        run.phase == TrainPhase::Close,
    ensures
        run.due() matches TrainAction::CloseEpoch { batches, .. } && batches == run.batches,
{
}

// ---------------------------------------------------------------------------
// Resuming
// ---------------------------------------------------------------------------

/// A metrics line counts under its own epoch, and under the number of epochs only
/// where it has none; its time is the elapsed time, and the total only where there
/// is none.
pub proof fn law_metrics_line(line: MetricLine)
    ensures
        line.epoch matches Some(n) ==> n <= usize::MAX ==> train::epoch_in_line(line) == Some(
            n as usize,
        ),
        line.epoch is None ==> (line.epochs matches Some(n) ==> n <= usize::MAX
            ==> train::epoch_in_line(line) == Some(n as usize)),
        line.epoch is None && line.epochs is None ==> train::epoch_in_line(line) is None,
        line.elapsed_secs is Some ==> train::time_in_line(line) == line.elapsed_secs,
        line.elapsed_secs is None ==> train::time_in_line(line) == line.total_secs,
{
}

/// A name holds an epoch exactly when it is the checkpoint prefix followed by a
/// number.
pub proof fn law_checkpoint_names(name: Seq<char>, rest: Seq<char>)
    ensures
        train::epoch_in_name("speech-aligner-epoch-"@ + rest) == text::parsed_usize(rest),
        !"speech-aligner-epoch-"@.is_prefix_of(name) ==> train::epoch_in_name(name) is None,
        train::epoch_in_name(name) is Some ==> name == "speech-aligner-epoch-"@ + name.skip(
            "speech-aligner-epoch-"@.len() as int,
        ),
{
    let prefix = "speech-aligner-epoch-"@;
    assert(prefix.is_prefix_of(prefix + rest));
    assert((prefix + rest).skip(prefix.len() as int) == rest);
    if prefix.is_prefix_of(name) {
        assert(name == prefix + name.skip(prefix.len() as int));
    }
}

/// Nothing to resume from is no epoch and no time.
pub proof fn law_nothing_to_resume()
    ensures
        train::collected(None, seq![], seq![]).completed_epochs == 0,
        train::collected(None, seq![], seq![]).elapsed_offset_secs == (Real64 { bits: 0 }),
{
}

/// The order in which epochs are found does not matter.
pub proof fn law_epochs_are_found_in_any_order(
    state: ResumeState,
    a: Option<usize>,
    b: Option<usize>,
)
    ensures
        state.with_epoch(a).with_epoch(b) == state.with_epoch(b).with_epoch(a),
        state.with_epoch(a).with_epoch(a) == state.with_epoch(a),
        state.with_epoch(a).elapsed_offset_secs == state.elapsed_offset_secs,
{
}

/// A longer time takes the place of the one so far; one that is not longer leaves
/// it as it is, and neither changes the epoch.
pub proof fn law_longer_time_counts(state: ResumeState, time: Real64)
    ensures
        state.elapsed_offset_secs.less(time) ==> state.with_elapsed(Some(time)).elapsed_offset_secs
            == time,
        !state.elapsed_offset_secs.less(time) ==> state.with_elapsed(Some(time)) == state,
        state.with_elapsed(None) == state,
        state.with_elapsed(Some(time)).completed_epochs == state.completed_epochs,
{
}

} // verus!
