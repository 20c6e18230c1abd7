//! Speech data sets: transcript files, utterance selection, training samples
//! and padded batches.

use vstd::prelude::*;

use crate::error::{Error, ErrorView, Result};
use crate::g2p::CmuDict;
use crate::ieee::Real32;
use crate::mfcc::append_slice;
use crate::order::{stable_sort, Keyed};
use crate::phoneme_map::transcript_to_targets;
use crate::text::{decimal_of, ends_with, slice_of, split_lines, string_of, trim, Separator};
use crate::{mfcc, order, phoneme_map, text};

verus! {

/// Bits of one half: minimum utterance duration in seconds.
pub const MIN_DURATION_SECS: u32 = 0x3f00_0000;

// ---------------------------------------------------------------------------
// Transcript files
// ---------------------------------------------------------------------------

/// The utterance id and the transcript on a line; `None` for a line without a
/// blank between the two.
pub open spec fn line_parts(line: Seq<char>) -> Option<(Seq<char>, Seq<char>)> {
    let t = text::trimmed(line);
    let k = text::run_len(t, Separator::Mark(' ')) as int;
    if k >= t.len() {
        None
    } else {
        Some((t.take(k), text::trimmed(t.skip(k + 1))))
    }
}

/// The id and the transcript of each line that has both, in order.
pub open spec fn transcript_parts(lines: Seq<Seq<char>>) -> Seq<(Seq<char>, Seq<char>)>
    decreases lines.len(),
{
    if lines.len() == 0 {
        seq![]
    } else {
        let before = transcript_parts(lines.drop_last());
        match line_parts(lines.last()) {
            Some(parts) => before.push(parts),
            None => before,
        }
    }
}

/// An utterance of a transcript file.
pub struct TransEntry {
    pub utt_id: String,
    pub transcript: String,
}

impl TransEntry {
    pub open spec fn view(&self) -> (Seq<char>, Seq<char>) {
        (self.utt_id@, self.transcript@)
    }
}

pub open spec fn entry_views(v: Seq<TransEntry>) -> Seq<(Seq<char>, Seq<char>)> {
    v.map_values(|e: TransEntry| e.view())
}

fn parse_trans_chars(line: &Vec<char>) -> (r: Option<TransEntry>)
    ensures
        match r {
            Some(e) => line_parts(line@) == Some(e.view()),
            None => line_parts(line@) is None,
        },
{
    let t = trim(line.as_slice());
    let n: usize = t.len();
    let mut k: usize = 0;
    assert(t@.skip(0) =~= t@);
    while k < n && t[k] != ' '
        invariant
            n == t@.len(),
            k <= n,
            text::run_len(t@, Separator::Mark(' ')) == k + text::run_len(
                t@.skip(k as int),
                Separator::Mark(' '),
            ),
        decreases n - k,
    {
        assert(t@.skip(k as int).drop_first() =~= t@.skip(k + 1));
        k = k + 1;
    }
    if k == n {
        return None;
    }
    let id = slice_of(t.as_slice(), 0, k);
    assert(id@ =~= t@.take(k as int));
    let rest = slice_of(t.as_slice(), k + 1, n);
    assert(rest@ =~= t@.skip(k + 1));
    let transcript = trim(rest.as_slice());
    Some(
        TransEntry {
            utt_id: string_of(id.as_slice()),
            transcript: string_of(transcript.as_slice()),
        },
    )
}

/// Reads one line of a transcript file: `<id> <TRANSCRIPT TEXT>`.
pub fn parse_trans_line(line: &str) -> (r: Option<TransEntry>)
    ensures
        match r {
            Some(e) => line_parts(line@) == Some(e.view()),
            None => line_parts(line@) is None,
        },
{
    let chars = text::chars_of(line);
    parse_trans_chars(&chars)
}

/// Reads a transcript file. Lines without an id and a transcript are passed
/// over.
pub fn parse_trans_file(content: &str) -> (r: Vec<TransEntry>)
    ensures
        entry_views(r@) == transcript_parts(text::lines(content@)),
{
    let all = split_lines(content);
    let ghost lines = text::texts(all@);
    let n: usize = all.len();
    let mut out: Vec<TransEntry> = Vec::new();
    let mut i: usize = 0;
    assert(lines.take(0) =~= Seq::<Seq<char>>::empty());
    assert(entry_views(out@) =~= transcript_parts(lines.take(0)));
    while i < n
        invariant
            n == all@.len(),
            i <= n,
            lines == text::texts(all@),
            entry_views(out@) == transcript_parts(lines.take(i as int)),
        decreases n - i,
    {
        let ghost upto = lines.take(i + 1);
        assert(upto.drop_last() =~= lines.take(i as int));
        assert(upto.last() == all@[i as int]@);
        if let Some(entry) = parse_trans_chars(&all[i]) {
            let ghost before = entry_views(out@);
            out.push(entry);
            assert(entry_views(out@) =~= before.push(entry.view()));
        }
        i = i + 1;
    }
    assert(lines.take(n as int) =~= lines);
    out
}

/// Whether a file of this name holds transcripts.
pub fn is_trans_file(name: &str) -> (r: bool)
    ensures
        r == ".trans.txt"@.is_suffix_of(name@),
{
    let chars = text::chars_of(name);
    ends_with(chars.as_slice(), ".trans.txt")
}

/// The name of an utterance's audio file: FLAC where there is one, else WAV,
/// else none.
pub fn audio_file_name(utt_id: &str, has_flac: bool, has_wav: bool) -> (r: Option<String>)
    ensures
        match r {
            Some(name) => (has_flac || has_wav) && name@ == utt_id@ + if has_flac {
                ".flac"@
            } else {
                ".wav"@
            },
            None => !has_flac && !has_wav,
        },
{
    if !has_flac && !has_wav {
        return None;
    }
    let mut name = utt_id.to_owned();
    if has_flac {
        name.append(".flac");
    } else {
        name.append(".wav");
    }
    Some(name)
}

/// Bytes that one second of audio takes in a file with this extension.
pub fn bytes_per_second(extension: &str) -> (r: u32)
    ensures
        r == if extension@ == "wav"@ {
            32000u32
        } else {
            4000u32
        },
{
    if extension.eq("wav") {
        32000
    } else {
        4000
    }
}

/// Refuses audio that is known to have another sample rate than the feature
/// pipeline expects.
pub fn check_sample_rate(rate: Option<u32>, path: &str) -> (r: Result<()>)
    ensures
        match r {
            Ok(_) => rate is None || rate == Some(16000u32),
            Err(e) => rate is Some && rate != Some(16000u32) && e@ == ErrorView::Config(
                "Audio sample rate "@ + text::decimal(rate->0 as nat)
                    + "Hz != expected 16000Hz in "@ + path@,
            ),
        },
{
    match rate {
        None => Ok(()),
        Some(hz) => if hz == 16000 {
            Ok(())
        } else {
            let mut msg = "Audio sample rate ".to_owned();
            let digits = decimal_of(hz as u64);
            msg.append(digits.as_str());
            msg.append("Hz != expected 16000Hz in ");
            msg.append(path);
            Err(Error::config(msg.as_str()))
        },
    }
}

// ---------------------------------------------------------------------------
// Utterances
// ---------------------------------------------------------------------------

/// A single training sample (metadata, resolved lazily into features).
pub struct UtteranceMeta {
    /// Path to the WAV/FLAC file.
    pub audio_path: String,
    /// Raw transcript text.
    pub transcript: String,
}

impl UtteranceMeta {
    pub open spec fn view(&self) -> (Seq<char>, Seq<char>) {
        (self.audio_path@, self.transcript@)
    }
}

impl Clone for UtteranceMeta {
    fn clone(&self) -> (r: Self)
        ensures
            r.view() == self.view(),
    {
        UtteranceMeta {
            audio_path: self.audio_path.clone(),
            transcript: self.transcript.clone(),
        }
    }
}

pub open spec fn meta_views(v: Seq<UtteranceMeta>) -> Seq<(Seq<char>, Seq<char>)> {
    v.map_values(|m: UtteranceMeta| m.view())
}

/// An utterance with its estimated duration in seconds.
pub struct Candidate {
    pub meta: UtteranceMeta,
    pub duration: Real32,
}

/// Neither too short nor longer than asked for.
pub open spec fn duration_fits(duration: Real32, longest: Real32) -> bool {
    !duration.less(Real32 { bits: MIN_DURATION_SECS }) && !longest.less(duration)
}

/// Those of the candidates whose duration fits, in order.
pub open spec fn fitting(candidates: Seq<Candidate>, longest: Real32) -> Seq<
    (Seq<char>, Seq<char>),
>
    decreases candidates.len(),
{
    if candidates.len() == 0 {
        seq![]
    } else {
        let before = fitting(candidates.drop_last(), longest);
        if duration_fits(candidates.last().duration, longest) {
            before.push(candidates.last().meta.view())
        } else {
            before
        }
    }
}

/// Keeps the utterances whose duration fits; an error where none does.
pub fn select_utterances(
    candidates: &Vec<Candidate>,
    max_duration_secs: Real32,
    data_dir: &str,
    split: &str,
) -> (r: Result<Vec<UtteranceMeta>>)
    ensures
        match r {
            Ok(v) => v@.len() > 0 && meta_views(v@) == fitting(candidates@, max_duration_secs),
            Err(e) => fitting(candidates@, max_duration_secs).len() == 0 && e@
                == ErrorView::Config("No utterances found in "@ + data_dir@ + "/"@ + split@),
        },
{
    let n: usize = candidates.len();
    let mut out: Vec<UtteranceMeta> = Vec::new();
    let mut i: usize = 0;
    assert(candidates@.take(0) =~= Seq::<Candidate>::empty());
    assert(meta_views(out@) =~= fitting(candidates@.take(0), max_duration_secs));
    while i < n
        invariant
            n == candidates@.len(),
            i <= n,
            meta_views(out@) == fitting(candidates@.take(i as int), max_duration_secs),
        decreases n - i,
    {
        let ghost upto = candidates@.take(i + 1);
        assert(upto.drop_last() =~= candidates@.take(i as int));
        assert(upto.last() == candidates@[i as int]);
        let duration: Real32 = candidates[i].duration;
        if !duration.lt(Real32::new(MIN_DURATION_SECS)) && !max_duration_secs.lt(duration) {
            let ghost before = meta_views(out@);
            let meta = candidates[i].meta.clone();
            out.push(meta);
            assert(meta_views(out@) =~= before.push(meta.view()));
        }
        i = i + 1;
    }
    assert(candidates@.take(n as int) =~= candidates@);
    assert(meta_views(out@).len() == out@.len());
    if out.len() == 0 {
        let mut msg = "No utterances found in ".to_owned();
        msg.append(data_dir);
        msg.append("/");
        msg.append(split);
        return Err(Error::config(msg.as_str()));
    }
    Ok(out)
}

// ---------------------------------------------------------------------------
// Training samples
// ---------------------------------------------------------------------------

/// A training sample with extracted features and targets; `T` is the type of
/// a feature value.
pub struct TrainingSample<T> {
    /// Feature frames: `[T, D]`.
    pub feature_frames: Vec<Vec<T>>,
    /// Per-frame feature dimension `D`.
    pub feature_dim: usize,
    /// CTC target indices.
    pub targets: Vec<i32>,
    /// Number of words in this utterance that letters alone were read for.
    pub oov_count: usize,
}

/// Whether a target sequence can be aligned with so many frames.
pub open spec fn alignable(frames: nat, targets: nat) -> bool {
    targets <= frames
}

/// Makes a training sample of an utterance's frames and transcript. A
/// transcript with more targets than there are frames cannot be aligned and is
/// refused.
pub fn process_utterance<T>(
    meta: &UtteranceMeta,
    feature_frames: Vec<Vec<T>>,
    feature_dim: usize,
    dict: &CmuDict,
) -> (r: Result<TrainingSample<T>>)
    ensures
        match phoneme_map::transcript_outcome(meta.transcript@, dict@) {
            Err(e) => r is Err && r->Err_0@ == e,
            Ok((targets, stats)) => match r {
                Ok(sample) => {
                    &&& alignable(feature_frames@.len(), targets.len())
                    &&& sample.feature_frames@ == feature_frames@
                    &&& sample.feature_dim == feature_dim
                    &&& sample.targets@ == targets
                    &&& sample.oov_count == stats.g2p_hits
                },
                Err(e) => !alignable(feature_frames@.len(), targets.len()) && e@
                    == ErrorView::Config(
                    "CTC constraint violated: "@ + text::decimal(feature_frames@.len())
                        + " frames < target length "@ + text::decimal(targets.len()) + " for "@
                        + meta.audio_path@,
                ),
            },
        },
{
    let (targets, stats) = match transcript_to_targets(meta.transcript.as_str(), dict) {
        Ok(found) => found,
        Err(e) => {
            return Err(e);
        },
    };
    if feature_frames.len() < targets.len() {
        let mut msg = "CTC constraint violated: ".to_owned();
        let frames = decimal_of(feature_frames.len() as u64);
        msg.append(frames.as_str());
        msg.append(" frames < target length ");
        let length = decimal_of(targets.len() as u64);
        msg.append(length.as_str());
        msg.append(" for ");
        msg.append(meta.audio_path.as_str());
        return Err(Error::config(msg.as_str()));
    }
    Ok(TrainingSample { feature_frames, feature_dim, targets, oov_count: stats.g2p_hits })
}

// ---------------------------------------------------------------------------
// Sorting by length
// ---------------------------------------------------------------------------

pub open spec fn keyed<T>(samples: Seq<TrainingSample<T>>) -> Seq<Keyed<TrainingSample<T>>> {
    samples.map_values(
        |s: TrainingSample<T>| Keyed { key: s.feature_frames.len() as u64, item: s },
    )
}

/// `r` holds the samples of `s` from the shortest to the longest; samples of
/// one length keep their order.
pub open spec fn sorted_by_frames<T>(
    s: Seq<TrainingSample<T>>,
    r: Seq<TrainingSample<T>>,
) -> bool {
    order::sorted_from(keyed(s), keyed(r))
}

/// Sorts samples by frame count (ascending) for minimal padding.
pub fn sort_by_frames<T>(samples: Vec<TrainingSample<T>>) -> (r: Vec<TrainingSample<T>>)
    ensures
        sorted_by_frames(samples@, r@),
        r@.len() == samples@.len(),
{
    let ghost all = samples@;
    let mut samples = samples;
    let mut backwards: Vec<Keyed<TrainingSample<T>>> = Vec::new();
    let ghost target = keyed(all);
    while samples.len() > 0
        invariant
            samples@.len() <= all.len(),
            samples@ == all.take(samples@.len() as int),
            target == keyed(all),
            backwards@ == target.skip(samples@.len() as int).reverse(),
        decreases samples@.len(),
    {
        let ghost k = samples@.len() as int;
        if let Some(item) = samples.pop() {
            let key: u64 = item.feature_frames.len() as u64;
            backwards.push(Keyed { key, item });
            assert(samples@ =~= all.take(k - 1));
            assert(target.skip(k - 1).reverse() =~= target.skip(k).reverse().push(target[k - 1]));
        }
    }
    assert(target.skip(0) =~= target);
    let mut forwards: Vec<Keyed<TrainingSample<T>>> = Vec::new();
    while backwards.len() > 0
        invariant
            backwards@.len() <= target.len(),
            backwards@ == target.skip(target.len() - backwards@.len()).reverse(),
            forwards@ == target.take(target.len() - backwards@.len()),
        decreases backwards@.len(),
    {
        let ghost k = target.len() - backwards@.len();
        let ghost before = backwards@;
        if let Some(x) = backwards.pop() {
            assert(x == target[k]);
            forwards.push(x);
            assert(forwards@ =~= target.take(k + 1));
            assert(backwards@ =~= target.skip(k + 1).reverse());
        }
    }
    assert(forwards@ =~= target);
    let mut sorted = stable_sort(forwards);
    let ghost done = sorted@;
    proof {
        order::lemma_same_length(target, done);
        target.to_multiset_ensures();
        done.to_multiset_ensures();
        assert forall|i: int| 0 <= i < done.len() implies (#[trigger] done[i]).key
            == done[i].item.feature_frames.len() as u64 by {
            assert(done.contains(done[i]));
            assert(done.to_multiset().count(done[i]) > 0);
            assert(target.contains(done[i]));
        }
    }
    let mut unkeyed_backwards: Vec<TrainingSample<T>> = Vec::new();
    let ghost items = done.map_values(|x: Keyed<TrainingSample<T>>| x.item);
    while sorted.len() > 0
        invariant
            sorted@.len() <= done.len(),
            sorted@ == done.take(sorted@.len() as int),
            items == done.map_values(|x: Keyed<TrainingSample<T>>| x.item),
            unkeyed_backwards@ == items.skip(sorted@.len() as int).reverse(),
        decreases sorted@.len(),
    {
        let ghost k = sorted@.len() as int;
        if let Some(x) = sorted.pop() {
            unkeyed_backwards.push(x.item);
            assert(sorted@ =~= done.take(k - 1));
            assert(items.skip(k - 1).reverse() =~= items.skip(k).reverse().push(items[k - 1]));
        }
    }
    assert(items.skip(0) =~= items);
    let mut out: Vec<TrainingSample<T>> = Vec::new();
    while unkeyed_backwards.len() > 0
        invariant
            unkeyed_backwards@.len() <= items.len(),
            unkeyed_backwards@ == items.skip(items.len() - unkeyed_backwards@.len()).reverse(),
            out@ == items.take(items.len() - unkeyed_backwards@.len()),
        decreases unkeyed_backwards@.len(),
    {
        let ghost k = items.len() - unkeyed_backwards@.len();
        if let Some(x) = unkeyed_backwards.pop() {
            assert(x == items[k]);
            out.push(x);
            assert(out@ =~= items.take(k + 1));
            assert(unkeyed_backwards@ =~= items.skip(k + 1).reverse());
        }
    }
    assert(out@ =~= items);
    assert(keyed(out@) =~= done);
    out
}

// ---------------------------------------------------------------------------
// Batches
// ---------------------------------------------------------------------------

/// The spans of batches of `size` samples from `start` on; the last may be
/// smaller.
pub open spec fn fixed_spans_from(start: int, n: int, size: int) -> Seq<(int, int)>
    decreases n - start,
{
    if start >= n || size <= 0 {
        seq![]
    } else {
        let end = if start + size < n {
            start + size
        } else {
            n
        };
        seq![(start, end)] + fixed_spans_from(end, n, size)
    }
}

/// Elements of the attention score tensor of a batch: every head compares all
/// frames with all frames.
pub open spec fn attention_elements(count: int, heads: int, frames: int) -> int {
    count * heads * frames * frames
}

/// Where the batch from `start` ends when samples are added, from `end` on, as
/// long as the batch stays within the budget and the cap.
pub open spec fn grown(
    lengths: Seq<int>,
    start: int,
    end: int,
    budget: int,
    cap: int,
    heads: int,
) -> int
    decreases lengths.len() - end,
{
    if end < lengths.len() && end - start < cap && attention_elements(
        end - start + 1,
        heads,
        lengths[end],
    ) <= budget {
        grown(lengths, start, end + 1, budget, cap, heads)
    } else {
        end
    }
}

/// A batch ends within the samples; one that grew keeps to its limits.
pub proof fn lemma_grown_bounds(
    lengths: Seq<int>,
    start: int,
    end: int,
    budget: int,
    cap: int,
    heads: int,
)
    requires
        start < end <= lengths.len(),
    ensures
        end <= grown(lengths, start, end, budget, cap, heads) <= lengths.len(),
        grown(lengths, start, end, budget, cap, heads) > end ==> ({
            let e = grown(lengths, start, end, budget, cap, heads);
            e - start <= cap && attention_elements(e - start, heads, lengths[e - 1]) <= budget
        }),
    decreases lengths.len() - end,
{
    if end < lengths.len() && end - start < cap && attention_elements(
        end - start + 1,
        heads,
        lengths[end],
    ) <= budget {
        lemma_grown_bounds(lengths, start, end + 1, budget, cap, heads);
    }
}

/// The spans of batches that are as large as the budget and the cap allow,
/// from `start` on. Every batch has at least one sample.
pub open spec fn dynamic_spans_from(
    lengths: Seq<int>,
    start: int,
    budget: int,
    cap: int,
    heads: int,
) -> Seq<(int, int)>
    decreases lengths.len() - start,
{
    proof {
        if start < lengths.len() {
            lemma_grown_bounds(lengths, start, start + 1, budget, cap, heads);
        }
    }
    if start >= lengths.len() {
        seq![]
    } else {
        let end = grown(lengths, start, start + 1, budget, cap, heads);
        seq![(start, end)] + dynamic_spans_from(lengths, end, budget, cap, heads)
    }
}

pub open spec fn span_views(v: Seq<(usize, usize)>) -> Seq<(int, int)> {
    v.map_values(|s: (usize, usize)| (s.0 as int, s.1 as int))
}

/// Splits `n` samples into batches of `batch_size`.
pub fn fixed_spans(n: usize, batch_size: usize) -> (r: Vec<(usize, usize)>)
    requires
        batch_size > 0,
    ensures
        span_views(r@) == fixed_spans_from(0, n as int, batch_size as int),
{
    let mut out: Vec<(usize, usize)> = Vec::new();
    let mut start: usize = 0;
    assert(span_views(out@) + fixed_spans_from(0, n as int, batch_size as int)
        =~= fixed_spans_from(0, n as int, batch_size as int));
    while start < n
        invariant
            start <= n,
            batch_size > 0,
            fixed_spans_from(0, n as int, batch_size as int) == span_views(out@)
                + fixed_spans_from(start as int, n as int, batch_size as int),
        decreases n - start,
    {
        let end: usize = if batch_size < n - start {
            start + batch_size
        } else {
            n
        };
        let ghost before = span_views(out@);
        out.push((start, end));
        assert(span_views(out@) =~= before.push((start as int, end as int)));
        assert(before + (seq![(start as int, end as int)] + fixed_spans_from(
            end as int,
            n as int,
            batch_size as int,
        )) =~= span_views(out@) + fixed_spans_from(end as int, n as int, batch_size as int));
        start = end;
    }
    assert(span_views(out@) + Seq::<(int, int)>::empty() =~= span_views(out@));
    out
}

fn within_budget(count: usize, heads: usize, frames: usize, budget: usize) -> (r: bool)
    requires
        count > 0,
    ensures
        r == (attention_elements(count as int, heads as int, frames as int) <= budget),
{
    if heads == 0 || frames == 0 {
        assert(count * heads * frames * frames == 0) by (nonlinear_arith)
            requires
                heads == 0 || frames == 0,
        ;
        return true;
    }
    match count.checked_mul(heads) {
        Some(a) => match a.checked_mul(frames) {
            Some(b) => match b.checked_mul(frames) {
                Some(c) => c <= budget,
                None => false,
            },
            None => {
                assert(count * heads * frames * frames > usize::MAX) by (nonlinear_arith)
                    requires
                        count * heads * frames > usize::MAX,
                        frames >= 1,
                ;
                false
            },
        },
        None => {
            assert(count * heads * frames * frames > usize::MAX) by (nonlinear_arith)
                requires
                    count * heads > usize::MAX,
                    frames >= 1,
            ;
            false
        },
    }
}

pub open spec fn length_views(v: Seq<usize>) -> Seq<int> {
    v.map_values(|n: usize| n as int)
}

/// Splits samples of the given lengths into batches within an attention
/// budget.
///
/// Self-attention memory grows with the square of the sequence length. Samples
/// are added as long as `B * n_heads * T * T` stays within
/// `max_attn_elements`, with `T` the length of the sample that is added, and
/// the batch within `max_samples_per_batch`.
pub fn dynamic_spans(
    lengths: &Vec<usize>,
    max_attn_elements: usize,
    max_samples_per_batch: usize,
    n_heads: usize,
) -> (r: Vec<(usize, usize)>)
    ensures
        span_views(r@) == dynamic_spans_from(
            length_views(lengths@),
            0,
            max_attn_elements as int,
            max_samples_per_batch as int,
            n_heads as int,
        ),
{
    let n: usize = lengths.len();
    let ghost lens = length_views(lengths@);
    let ghost budget = max_attn_elements as int;
    let ghost cap = max_samples_per_batch as int;
    let ghost heads = n_heads as int;
    let mut out: Vec<(usize, usize)> = Vec::new();
    let mut start: usize = 0;
    assert(span_views(out@) + dynamic_spans_from(lens, 0, budget, cap, heads)
        =~= dynamic_spans_from(lens, 0, budget, cap, heads));
    while start < n
        invariant
            n == lengths@.len(),
            start <= n,
            lens == length_views(lengths@),
            budget == max_attn_elements,
            cap == max_samples_per_batch,
            heads == n_heads,
            dynamic_spans_from(lens, 0, budget, cap, heads) == span_views(out@)
                + dynamic_spans_from(lens, start as int, budget, cap, heads),
        decreases n - start,
    {
        let mut end: usize = start + 1;
        while end < n && end - start < max_samples_per_batch && within_budget(
            end - start + 1,
            n_heads,
            lengths[end],
            max_attn_elements,
        )
            invariant
                n == lengths@.len(),
                start < end <= n,
                lens == length_views(lengths@),
                budget == max_attn_elements,
                cap == max_samples_per_batch,
                heads == n_heads,
                grown(lens, start as int, start + 1, budget, cap, heads) == grown(
                    lens,
                    start as int,
                    end as int,
                    budget,
                    cap,
                    heads,
                ),
            decreases n - end,
        {
            end = end + 1;
        }
        let ghost before = span_views(out@);
        out.push((start, end));
        assert(span_views(out@) =~= before.push((start as int, end as int)));
        assert(before + (seq![(start as int, end as int)] + dynamic_spans_from(
            lens,
            end as int,
            budget,
            cap,
            heads,
        )) =~= span_views(out@) + dynamic_spans_from(lens, end as int, budget, cap, heads));
        start = end;
    }
    assert(span_views(out@) + Seq::<(int, int)>::empty() =~= span_views(out@));
    out
}

/// The spans cover `start..n` without gap or overlap, and none is empty.
pub open spec fn partition(spans: Seq<(int, int)>, start: int, n: int) -> bool {
    &&& spans.len() == 0 ==> start == n
    &&& spans.len() > 0 ==> spans[0].0 == start && spans.last().1 == n
    &&& forall|i: int| 0 <= i < spans.len() ==> (#[trigger] spans[i]).0 < spans[i].1
    &&& forall|i: int| 0 < i < spans.len() ==> (#[trigger] spans[i]).0 == spans[i - 1].1
}

proof fn lemma_partition_cons(first: (int, int), rest: Seq<(int, int)>, n: int)
    requires
        first.0 < first.1,
        partition(rest, first.1, n),
    ensures
        partition(seq![first] + rest, first.0, n),
{
    let all = seq![first] + rest;
    if rest.len() > 0 {
        assert(all.last() == rest.last());
        assert(all[1] == rest[0]);
    }
    assert forall|i: int| 0 <= i < all.len() implies (#[trigger] all[i]).0 < all[i].1 by {
        if i > 0 {
            assert(all[i] == rest[i - 1]);
        }
    }
    assert forall|i: int| 0 < i < all.len() implies (#[trigger] all[i]).0 == all[i - 1].1 by {
        assert(all[i] == rest[i - 1]);
        if i > 1 {
            assert(all[i - 1] == rest[i - 2]);
        }
    }
}

/// Batches of a fixed size cover all samples, each once, and none is larger
/// than asked for.
pub proof fn law_fixed_spans_partition(start: int, n: int, size: int)
    requires
        0 <= start <= n,
        size > 0,
    ensures
        partition(fixed_spans_from(start, n, size), start, n),
        forall|i: int|
            0 <= i < fixed_spans_from(start, n, size).len() ==> (#[trigger] fixed_spans_from(
                start,
                n,
                size,
            )[i]).1 - fixed_spans_from(start, n, size)[i].0 <= size,
    decreases n - start,
{
    if start < n {
        let end = if start + size < n {
            start + size
        } else {
            n
        };
        law_fixed_spans_partition(end, n, size);
        let rest = fixed_spans_from(end, n, size);
        let all = fixed_spans_from(start, n, size);
        lemma_partition_cons((start, end), rest, n);
        assert(all =~= seq![(start, end)] + rest);
        assert forall|i: int| 0 <= i < all.len() implies (#[trigger] all[i]).1 - all[i].0
            <= size by {
            if i > 0 {
                assert(all[i] == rest[i - 1]);
            }
        }
    }
}

/// A batch of more than one sample is within the cap, and its attention scores
/// are within the budget.
pub open spec fn within_limits(
    lengths: Seq<int>,
    span: (int, int),
    budget: int,
    cap: int,
    heads: int,
) -> bool {
    span.1 - span.0 > 1 ==> span.1 - span.0 <= cap && attention_elements(
        span.1 - span.0,
        heads,
        lengths[span.1 - 1],
    ) <= budget
}

/// Batches within an attention budget cover all samples, each once, and every
/// batch of more than one sample keeps to the budget and to the cap.
pub proof fn law_dynamic_spans_partition(
    lengths: Seq<int>,
    start: int,
    budget: int,
    cap: int,
    heads: int,
)
    requires
        0 <= start <= lengths.len(),
    ensures
        partition(
            dynamic_spans_from(lengths, start, budget, cap, heads),
            start,
            lengths.len() as int,
        ),
        forall|i: int|
            0 <= i < dynamic_spans_from(lengths, start, budget, cap, heads).len()
                ==> within_limits(
                lengths,
                #[trigger] dynamic_spans_from(lengths, start, budget, cap, heads)[i],
                budget,
                cap,
                heads,
            ),
    decreases lengths.len() - start,
{
    if start < lengths.len() {
        lemma_grown_bounds(lengths, start, start + 1, budget, cap, heads);
        let end = grown(lengths, start, start + 1, budget, cap, heads);
        law_dynamic_spans_partition(lengths, end, budget, cap, heads);
        let rest = dynamic_spans_from(lengths, end, budget, cap, heads);
        let all = dynamic_spans_from(lengths, start, budget, cap, heads);
        lemma_partition_cons((start, end), rest, lengths.len() as int);
        assert(all =~= seq![(start, end)] + rest);
        assert forall|i: int| 0 <= i < all.len() implies within_limits(
            lengths,
            #[trigger] all[i],
            budget,
            cap,
            heads,
        ) by {
            if i > 0 {
                assert(all[i] == rest[i - 1]);
            }
        }
    }
}

// ---------------------------------------------------------------------------
// Padding
// ---------------------------------------------------------------------------

/// The data of a padded training batch, row by row.
pub struct BatchData<T> {
    /// Number of samples.
    pub size: usize,
    /// Frames of the longest sample.
    pub max_time: usize,
    /// Targets of the sample that has most.
    pub max_target: usize,
    pub feature_dim: usize,
    /// Input features: `[batch, max_time, feature_dim]`.
    pub inputs: Vec<T>,
    /// CTC targets: `[batch, max_target_len]`.
    pub targets: Vec<i32>,
    /// Actual input lengths per sample: `[batch]`.
    pub input_lengths: Vec<i32>,
    /// Actual target lengths per sample: `[batch]`.
    pub target_lengths: Vec<i32>,
    /// Pad mask: `[batch, max_time]`, true for padded frames.
    pub pad_mask: Vec<bool>,
}

pub open spec fn copies<A>(x: A, n: nat) -> Seq<A> {
    Seq::new(n, |i: int| x)
}

pub open spec fn larger(a: nat, b: nat) -> nat {
    if a >= b {
        a
    } else {
        b
    }
}

/// Frames of the longest sample.
pub open spec fn most_frames<T>(samples: Seq<TrainingSample<T>>) -> nat
    decreases samples.len(),
{
    if samples.len() == 0 {
        0
    } else {
        larger(most_frames(samples.drop_last()), samples.last().feature_frames@.len())
    }
}

/// Targets of the sample that has most.
pub open spec fn most_targets<T>(samples: Seq<TrainingSample<T>>) -> nat
    decreases samples.len(),
{
    if samples.len() == 0 {
        0
    } else {
        larger(most_targets(samples.drop_last()), samples.last().targets@.len())
    }
}

/// `n` rows of `dim` times `zero`.
pub open spec fn blank_rows<T>(zero: T, dim: nat, n: nat) -> Seq<T>
    decreases n,
{
    if n == 0 {
        seq![]
    } else {
        blank_rows(zero, dim, (n - 1) as nat) + copies(zero, dim)
    }
}

/// The frames of one sample, filled up to `max_time` rows.
pub open spec fn padded_frames<T>(
    sample: TrainingSample<T>,
    max_time: nat,
    dim: nat,
    zero: T,
) -> Seq<T> {
    mfcc::flat(sample.feature_frames@) + blank_rows(
        zero,
        dim,
        (max_time - sample.feature_frames@.len()) as nat,
    )
}

pub open spec fn padded_inputs<T>(
    samples: Seq<TrainingSample<T>>,
    max_time: nat,
    dim: nat,
    zero: T,
) -> Seq<T>
    decreases samples.len(),
{
    if samples.len() == 0 {
        seq![]
    } else {
        padded_inputs(samples.drop_last(), max_time, dim, zero) + padded_frames(
            samples.last(),
            max_time,
            dim,
            zero,
        )
    }
}

pub open spec fn padded_targets<T>(samples: Seq<TrainingSample<T>>, max_target: nat) -> Seq<i32>
    decreases samples.len(),
{
    if samples.len() == 0 {
        seq![]
    } else {
        padded_targets(samples.drop_last(), max_target) + (samples.last().targets@ + copies(
            0i32,
            (max_target - samples.last().targets@.len()) as nat,
        ))
    }
}

pub open spec fn pad_masks<T>(samples: Seq<TrainingSample<T>>, max_time: nat) -> Seq<bool>
    decreases samples.len(),
{
    if samples.len() == 0 {
        seq![]
    } else {
        let t = samples.last().feature_frames@.len();
        pad_masks(samples.drop_last(), max_time) + (copies(false, t) + copies(
            true,
            (max_time - t) as nat,
        ))
    }
}

/// Whether the frames of a batch are all as wide as its first sample says.
pub open spec fn fits<T>(samples: Seq<TrainingSample<T>>) -> bool {
    forall|i: int, f: int|
        0 <= i < samples.len() && 0 <= f < samples[i].feature_frames@.len()
            ==> #[trigger] samples[i].feature_frames@[f]@.len() == samples[0].feature_dim
}

/// `batch` is the padded form of `samples`.
pub open spec fn pads<T>(batch: BatchData<T>, samples: Seq<TrainingSample<T>>, zero: T) -> bool {
    let dim = if samples.len() == 0 {
        0nat
    } else {
        samples[0].feature_dim as nat
    };
    &&& batch.size == samples.len()
    &&& batch.max_time == most_frames(samples)
    &&& batch.max_target == most_targets(samples)
    &&& batch.feature_dim == dim
    &&& batch.inputs@ == padded_inputs(samples, most_frames(samples), dim, zero)
    &&& batch.targets@ == padded_targets(samples, most_targets(samples))
    &&& batch.input_lengths@ == samples.map_values(
        |s: TrainingSample<T>| s.feature_frames@.len() as i32,
    )
    &&& batch.target_lengths@ == samples.map_values(
        |s: TrainingSample<T>| s.targets@.len() as i32,
    )
    &&& batch.pad_mask@ == pad_masks(samples, most_frames(samples))
}

fn push_copies<A: Copy>(out: &mut Vec<A>, x: A, n: usize)
    ensures
        final(out)@ == old(out)@ + copies(x, n as nat),
{
    let mut k: usize = 0;
    assert(out@ =~= old(out)@ + copies(x, 0));
    while k < n
        invariant
            k <= n,
            out@ == old(out)@ + copies(x, k as nat),
        decreases n - k,
    {
        out.push(x);
        k = k + 1;
        assert(out@ =~= old(out)@ + copies(x, k as nat));
    }
}

proof fn lemma_most_at_least<T>(samples: Seq<TrainingSample<T>>, i: int)
    requires
        0 <= i < samples.len(),
    ensures
        samples[i].feature_frames@.len() <= most_frames(samples),
        samples[i].targets@.len() <= most_targets(samples),
    decreases samples.len(),
{
    if i < samples.len() - 1 {
        lemma_most_at_least(samples.drop_last(), i);
    }
}

fn longest_in<T>(samples: &Vec<TrainingSample<T>>, start: usize, end: usize) -> (r: (usize, usize))
    requires
        start <= end <= samples@.len(),
    ensures
        r.0 == most_frames(samples@.subrange(start as int, end as int)),
        r.1 == most_targets(samples@.subrange(start as int, end as int)),
{
    let mut frames: usize = 0;
    let mut targets: usize = 0;
    let mut i: usize = start;
    while i < end
        invariant
            start <= i <= end <= samples@.len(),
            frames == most_frames(samples@.subrange(start as int, i as int)),
            targets == most_targets(samples@.subrange(start as int, i as int)),
        decreases end - i,
    {
        let ghost upto = samples@.subrange(start as int, i + 1);
        assert(upto.drop_last() =~= samples@.subrange(start as int, i as int));
        assert(upto.last() == samples@[i as int]);
        let t: usize = samples[i].feature_frames.len();
        let l: usize = samples[i].targets.len();
        if t > frames {
            frames = t;
        }
        if l > targets {
            targets = l;
        }
        i = i + 1;
    }
    (frames, targets)
}

/// Pads the samples `start..end` to one batch.
pub fn pad_batch<T: Copy>(
    samples: &Vec<TrainingSample<T>>,
    start: usize,
    end: usize,
    zero: T,
) -> (r: BatchData<T>)
    requires
        start <= end <= samples@.len(),
        fits(samples@.subrange(start as int, end as int)),
    ensures
        pads(r, samples@.subrange(start as int, end as int), zero),
{
    let ghost batch = samples@.subrange(start as int, end as int);
    let (max_time, max_target) = longest_in(samples, start, end);
    let dim: usize = if start < end {
        samples[start].feature_dim
    } else {
        0
    };
    let mut inputs: Vec<T> = Vec::new();
    let mut targets: Vec<i32> = Vec::new();
    let mut input_lengths: Vec<i32> = Vec::new();
    let mut target_lengths: Vec<i32> = Vec::new();
    let mut pad_mask: Vec<bool> = Vec::new();
    let ghost frame_len = |s: TrainingSample<T>| s.feature_frames@.len() as i32;
    let ghost target_len = |s: TrainingSample<T>| s.targets@.len() as i32;
    let mut i: usize = start;
    assert(batch.take(0) =~= Seq::<TrainingSample<T>>::empty());
    while i < end
        invariant
            start <= i <= end <= samples@.len(),
            batch == samples@.subrange(start as int, end as int),
            max_time == most_frames(batch),
            max_target == most_targets(batch),
            inputs@ == padded_inputs(batch.take(i - start), max_time as nat, dim as nat, zero),
            targets@ == padded_targets(batch.take(i - start), max_target as nat),
            pad_mask@ == pad_masks(batch.take(i - start), max_time as nat),
            frame_len == (|s: TrainingSample<T>| s.feature_frames@.len() as i32),
            target_len == (|s: TrainingSample<T>| s.targets@.len() as i32),
            input_lengths@ == batch.take(i - start).map_values(frame_len),
            target_lengths@ == batch.take(i - start).map_values(target_len),
        decreases end - i,
    {
        let ghost upto = batch.take(i - start + 1);
        let ghost sample = samples@[i as int];
        proof {
            assert(upto.drop_last() =~= batch.take(i - start));
            assert(upto.last() == sample);
            assert(batch[i - start] == sample);
            lemma_most_at_least(batch, i - start);
        }
        let t: usize = samples[i].feature_frames.len();
        let l: usize = samples[i].targets.len();
        let ghost in_before = inputs@;
        let frames = mfcc::flatten_frames(samples[i].feature_frames.as_slice());
        append_slice(&mut inputs, frames.as_slice());
        let mut row: usize = t;
        assert(inputs@ =~= in_before + (mfcc::flat(sample.feature_frames@) + blank_rows(
            zero,
            dim as nat,
            0,
        )));
        while row < max_time
            invariant
                t <= row <= max_time,
                inputs@ == in_before + (mfcc::flat(sample.feature_frames@) + blank_rows(
                    zero,
                    dim as nat,
                    (row - t) as nat,
                )),
            decreases max_time - row,
        {
            push_copies(&mut inputs, zero, dim);
            row = row + 1;
            assert(inputs@ =~= in_before + (mfcc::flat(sample.feature_frames@) + blank_rows(
                zero,
                dim as nat,
                (row - t) as nat,
            )));
        }
        let ghost tg_before = targets@;
        append_slice(&mut targets, samples[i].targets.as_slice());
        push_copies(&mut targets, 0, max_target - l);
        assert(targets@ =~= tg_before + (sample.targets@ + copies(
            0i32,
            (max_target - l) as nat,
        )));
        let ghost mask_before = pad_mask@;
        push_copies(&mut pad_mask, false, t);
        push_copies(&mut pad_mask, true, max_time - t);
        assert(pad_mask@ =~= mask_before + (copies(false, t as nat) + copies(
            true,
            (max_time - t) as nat,
        )));
        input_lengths.push(t as i32);
        target_lengths.push(l as i32);
        assert(input_lengths@ =~= upto.map_values(frame_len));
        assert(target_lengths@ =~= upto.map_values(target_len));
        i = i + 1;
    }
    assert(batch.take(end - start) =~= batch);
    assert(start < end ==> batch[0] == samples@[start as int]);
    BatchData {
        size: end - start,
        max_time,
        max_target,
        feature_dim: dim,
        inputs,
        targets,
        input_lengths,
        target_lengths,
        pad_mask,
    }
}

/// The samples of one span.
pub open spec fn span_of<T>(samples: Seq<TrainingSample<T>>, span: (int, int)) -> Seq<
    TrainingSample<T>,
> {
    samples.subrange(span.0, span.1)
}

pub open spec fn spans_fit<T>(samples: Seq<TrainingSample<T>>, spans: Seq<(int, int)>) -> bool {
    forall|i: int| 0 <= i < spans.len() ==> fits(span_of(samples, #[trigger] spans[i]))
}

/// One padded batch for each span.
pub open spec fn spans_padded<T>(
    batches: Seq<BatchData<T>>,
    samples: Seq<TrainingSample<T>>,
    spans: Seq<(int, int)>,
    zero: T,
) -> bool {
    &&& batches.len() == spans.len()
    &&& forall|i: int|
        0 <= i < spans.len() ==> pads(#[trigger] batches[i], span_of(samples, spans[i]), zero)
}

fn pad_spans<T: Copy>(
    samples: &Vec<TrainingSample<T>>,
    spans: &Vec<(usize, usize)>,
    zero: T,
) -> (r: Vec<BatchData<T>>)
    requires
        partition(span_views(spans@), 0, samples@.len() as int),
        spans_fit(samples@, span_views(spans@)),
    ensures
        spans_padded(r@, samples@, span_views(spans@), zero),
{
    let n: usize = spans.len();
    let ghost views = span_views(spans@);
    let mut out: Vec<BatchData<T>> = Vec::new();
    let mut i: usize = 0;
    while i < n
        invariant
            n == spans@.len(),
            i <= n,
            views == span_views(spans@),
            partition(views, 0, samples@.len() as int),
            spans_fit(samples@, views),
            out@.len() == i,
            forall|k: int|
                0 <= k < i ==> pads(#[trigger] out@[k], span_of(samples@, views[k]), zero),
        decreases n - i,
    {
        let (start, end) = spans[i];
        proof {
            assert(views[i as int] == (start as int, end as int));
            lemma_partition_bound(views, samples@.len() as int, i as int);
            assert(fits(span_of(samples@, views[i as int])));
        }
        let batch = pad_batch(samples, start, end, zero);
        out.push(batch);
        i = i + 1;
    }
    out
}

proof fn lemma_partition_bound(spans: Seq<(int, int)>, n: int, i: int)
    requires
        partition(spans, 0, n),
        0 <= i < spans.len(),
    ensures
        spans[i].1 <= n,
    decreases spans.len() - i,
{
    if i < spans.len() - 1 {
        lemma_partition_bound(spans, n, i + 1);
        assert(spans[i + 1].0 == spans[i].1);
    }
}

/// What padding asks of samples that are batched `size` at a time.
pub open spec fn fixed_fit<T>(samples: Seq<TrainingSample<T>>, size: int) -> bool {
    forall|s: Seq<TrainingSample<T>>| #[trigger]
        sorted_by_frames(samples, s) ==> spans_fit(s, fixed_spans_from(0, s.len() as int, size))
}

/// What padding asks of samples that are batched within an attention budget.
pub open spec fn dynamic_fit<T>(
    samples: Seq<TrainingSample<T>>,
    budget: int,
    cap: int,
    heads: int,
) -> bool {
    forall|s: Seq<TrainingSample<T>>| #[trigger]
        sorted_by_frames(samples, s) ==> spans_fit(
            s,
            dynamic_spans_from(frame_counts(s), 0, budget, cap, heads),
        )
}

/// The frame count of each sample.
pub open spec fn frame_counts<T>(samples: Seq<TrainingSample<T>>) -> Seq<int> {
    samples.map_values(|s: TrainingSample<T>| s.feature_frames@.len() as int)
}

/// Create padded training batches from samples, sorted by length. Returns the
/// sorted samples and the batches.
pub fn create_batches<T: Copy>(
    samples: Vec<TrainingSample<T>>,
    batch_size: usize,
    zero: T,
) -> (r: (Vec<TrainingSample<T>>, Vec<BatchData<T>>))
    requires
        batch_size > 0,
        fixed_fit(samples@, batch_size as int),
    ensures
        sorted_by_frames(samples@, r.0@),
        r.0@.len() == samples@.len(),
        spans_padded(
            r.1@,
            r.0@,
            fixed_spans_from(0, samples@.len() as int, batch_size as int),
            zero,
        ),
{
    let sorted = sort_by_frames(samples);
    let spans = fixed_spans(sorted.len(), batch_size);
    proof {
        law_fixed_spans_partition(0, sorted@.len() as int, batch_size as int);
    }
    let batches = pad_spans(&sorted, &spans, zero);
    (sorted, batches)
}

/// Create training batches that are as large as an attention budget allows.
/// Returns the sorted samples and the batches.
pub fn create_dynamic_batches<T: Copy>(
    samples: Vec<TrainingSample<T>>,
    max_attn_elements: usize,
    max_samples_per_batch: usize,
    n_heads: usize,
    zero: T,
) -> (r: (Vec<TrainingSample<T>>, Vec<BatchData<T>>))
    requires
        dynamic_fit(
            samples@,
            max_attn_elements as int,
            max_samples_per_batch as int,
            n_heads as int,
        ),
    ensures
        sorted_by_frames(samples@, r.0@),
        r.0@.len() == samples@.len(),
        spans_padded(
            r.1@,
            r.0@,
            dynamic_spans_from(
                frame_counts(r.0@),
                0,
                max_attn_elements as int,
                max_samples_per_batch as int,
                n_heads as int,
            ),
            zero,
        ),
{
    let sorted = sort_by_frames(samples);
    let n: usize = sorted.len();
    let mut lengths: Vec<usize> = Vec::new();
    let mut i: usize = 0;
    while i < n
        invariant
            n == sorted@.len(),
            i <= n,
            lengths@.len() == i,
            forall|k: int| 0 <= k < i ==> lengths@[k] == sorted@[k].feature_frames@.len(),
        decreases n - i,
    {
        lengths.push(sorted[i].feature_frames.len());
        i = i + 1;
    }
    assert(length_views(lengths@) =~= frame_counts(sorted@));
    let spans = dynamic_spans(&lengths, max_attn_elements, max_samples_per_batch, n_heads);
    proof {
        law_dynamic_spans_partition(
            frame_counts(sorted@),
            0,
            max_attn_elements as int,
            max_samples_per_batch as int,
            n_heads as int,
        );
    }
    let batches = pad_spans(&sorted, &spans, zero);
    (sorted, batches)
}

// ---------------------------------------------------------------------------
// Laws of padding
// ---------------------------------------------------------------------------

/// Whether all frames of all samples have one width.
pub open spec fn uniform<T>(samples: Seq<TrainingSample<T>>, dim: usize) -> bool {
    &&& forall|i: int| 0 <= i < samples.len() ==> (#[trigger] samples[i]).feature_dim == dim
    &&& forall|i: int, f: int|
        0 <= i < samples.len() && 0 <= f < samples[i].feature_frames@.len()
            ==> #[trigger] samples[i].feature_frames@[f]@.len() == dim
}

proof fn lemma_sorting_keeps_uniform<T>(
    samples: Seq<TrainingSample<T>>,
    s: Seq<TrainingSample<T>>,
    dim: usize,
)
    requires
        uniform(samples, dim),
        sorted_by_frames(samples, s),
    ensures
        uniform(s, dim),
{
    assert forall|i: int| 0 <= i < s.len() implies (#[trigger] s[i]).feature_dim == dim by {
        lemma_sorted_origin(samples, s, i);
    }
    assert forall|i: int, f: int|
        0 <= i < s.len() && 0 <= f < s[i].feature_frames@.len() implies #[trigger] s[i].feature_frames@[f]@.len()
        == dim by {
        lemma_sorted_origin(samples, s, i);
        let j = choose|j: int| 0 <= j < samples.len() && #[trigger] samples[j] == s[i];
        assert(samples[j].feature_frames@[f]@.len() == dim);
    }
}

proof fn lemma_sorted_origin<T>(
    samples: Seq<TrainingSample<T>>,
    s: Seq<TrainingSample<T>>,
    i: int,
)
    requires
        sorted_by_frames(samples, s),
        0 <= i < s.len(),
    ensures
        exists|j: int| 0 <= j < samples.len() && #[trigger] samples[j] == s[i],
{
    order::lemma_sorted_member(keyed(samples), keyed(s), i);
    let j = choose|j: int|
        0 <= j < keyed(samples).len() && #[trigger] keyed(samples)[j] == keyed(s)[i];
    assert(samples[j] == s[i]);
}

/// Samples whose frames all have one width can be batched in either way.
pub proof fn law_uniform_samples_fit<T>(
    samples: Seq<TrainingSample<T>>,
    dim: usize,
    size: int,
    budget: int,
    cap: int,
    heads: int,
)
    requires
        uniform(samples, dim),
        size > 0,
    ensures
        fixed_fit(samples, size),
        dynamic_fit(samples, budget, cap, heads),
{
    assert forall|s: Seq<TrainingSample<T>>| #[trigger]
        sorted_by_frames(samples, s) implies spans_fit(
        s,
        fixed_spans_from(0, s.len() as int, size),
    ) && spans_fit(s, dynamic_spans_from(frame_counts(s), 0, budget, cap, heads)) by {
        lemma_sorting_keeps_uniform(samples, s, dim);
        law_fixed_spans_partition(0, s.len() as int, size);
        law_dynamic_spans_partition(frame_counts(s), 0, budget, cap, heads);
        lemma_uniform_spans_fit(s, dim, fixed_spans_from(0, s.len() as int, size));
        lemma_uniform_spans_fit(
            s,
            dim,
            dynamic_spans_from(frame_counts(s), 0, budget, cap, heads),
        );
    }
}

proof fn lemma_uniform_spans_fit<T>(
    s: Seq<TrainingSample<T>>,
    dim: usize,
    spans: Seq<(int, int)>,
)
    requires
        uniform(s, dim),
        partition(spans, 0, s.len() as int),
    ensures
        spans_fit(s, spans),
{
    assert forall|i: int| 0 <= i < spans.len() implies fits(span_of(s, #[trigger] spans[i])) by {
        lemma_partition_bound(spans, s.len() as int, i);
        lemma_partition_start(spans, s.len() as int, i);
        let batch = span_of(s, spans[i]);
        assert forall|k: int, f: int|
            0 <= k < batch.len() && 0 <= f < batch[k].feature_frames@.len() implies #[trigger] batch[k].feature_frames@[f]@.len()
            == batch[0].feature_dim by {
            assert(batch[k] == s[spans[i].0 + k]);
            assert(s[spans[i].0 + k].feature_frames@[f]@.len() == dim);
            assert(batch[0] == s[spans[i].0]);
        }
    }
}

proof fn lemma_partition_start(spans: Seq<(int, int)>, n: int, i: int)
    requires
        partition(spans, 0, n),
        0 <= i < spans.len(),
    ensures
        0 <= spans[i].0,
    decreases i,
{
    if i > 0 {
        lemma_partition_start(spans, n, i - 1);
        assert(spans[i].0 == spans[i - 1].1);
        assert(spans[i - 1].0 < spans[i - 1].1);
    }
}

proof fn lemma_blank_rows<T>(zero: T, dim: nat, n: nat)
    ensures
        blank_rows(zero, dim, n).len() == n * dim,
        forall|i: int| 0 <= i < n * dim ==> #[trigger] blank_rows(zero, dim, n)[i] == zero,
    decreases n,
{
    if n == 0 {
        assert(n * dim == 0) by (nonlinear_arith)
            requires
                n == 0,
        ;
    } else {
        lemma_blank_rows(zero, dim, (n - 1) as nat);
        assert((n - 1) * dim + dim == n * dim) by (nonlinear_arith);
    }
}

proof fn lemma_padded_frames_cell<T>(
    sample: TrainingSample<T>,
    max_time: nat,
    dim: nat,
    zero: T,
    f: int,
    c: int,
)
    requires
        sample.feature_frames@.len() <= max_time,
        forall|k: int|
            0 <= k < sample.feature_frames@.len() ==> (
            #[trigger] sample.feature_frames@[k])@.len() == dim,
    ensures
        padded_frames(sample, max_time, dim, zero).len() == max_time * dim,
        0 <= f < max_time && 0 <= c < dim ==> 0 <= f * dim + c < max_time * dim && padded_frames(
            sample,
            max_time,
            dim,
            zero,
        )[f * dim + c] == if f < sample.feature_frames@.len() {
            sample.feature_frames@[f]@[c]
        } else {
            zero
        },
{
    let t = sample.feature_frames@.len() as int;
    let d = dim as int;
    let m = max_time as int;
    mfcc::lemma_flat_cell(sample.feature_frames@, d, f, c);
    lemma_blank_rows(zero, dim, (m - t) as nat);
    assert(t * d + (m - t) * d == m * d) by (nonlinear_arith);
    if 0 <= f < m && 0 <= c < d {
        assert(0 <= f * d + c < m * d) by (nonlinear_arith)
            requires
                0 <= f < m,
                0 <= c < d,
        ;
        if f >= t {
            assert(t * d <= f * d + c) by (nonlinear_arith)
                requires
                    t <= f,
                    0 <= c,
                    d >= 0,
            ;
        }
    }
}

/// Where a padded batch holds what: the value of channel `c` of frame `f` of
/// sample `i` stands at `(i * max_time + f) * dim + c`, and every place behind
/// the end of a sample holds zero.
pub proof fn law_padded_cell<T>(
    samples: Seq<TrainingSample<T>>,
    max_time: nat,
    dim: nat,
    zero: T,
    i: int,
    f: int,
    c: int,
)
    requires
        forall|k: int|
            0 <= k < samples.len() ==> (#[trigger] samples[k]).feature_frames@.len() <= max_time,
        forall|k: int, g: int|
            0 <= k < samples.len() && 0 <= g < samples[k].feature_frames@.len()
                ==> #[trigger] samples[k].feature_frames@[g]@.len() == dim,
    ensures
        padded_inputs(samples, max_time, dim, zero).len() == samples.len() * (max_time * dim),
        0 <= i < samples.len() && 0 <= f < max_time && 0 <= c < dim ==> padded_inputs(
            samples,
            max_time,
            dim,
            zero,
        )[(i * max_time + f) * dim + c] == if f < samples[i].feature_frames@.len() {
            samples[i].feature_frames@[f]@[c]
        } else {
            zero
        },
    decreases samples.len(),
{
    let n = samples.len() as int;
    let d = dim as int;
    let m = max_time as int;
    let row = m * d;
    if n == 0 {
        assert(n * row == 0) by (nonlinear_arith)
            requires
                n == 0,
        ;
    } else {
        let before = samples.drop_last();
        assert forall|k: int, g: int|
            0 <= k < before.len() && 0 <= g < before[k].feature_frames@.len() implies #[trigger] before[k].feature_frames@[g]@.len()
            == dim by {
            assert(samples[k].feature_frames@[g]@.len() == dim);
        }
        law_padded_cell(before, max_time, dim, zero, i, f, c);
        let last = samples[n - 1];
        assert(last.feature_frames@.len() <= max_time);
        assert forall|k: int|
            0 <= k < last.feature_frames@.len() implies (#[trigger] last.feature_frames@[k])@.len()
            == dim by {
            assert(samples[n - 1].feature_frames@[k]@.len() == dim);
        }
        lemma_padded_frames_cell(last, max_time, dim, zero, f, c);
        assert((n - 1) * row + row == n * row) by (nonlinear_arith);
        if 0 <= i < n && 0 <= f < m && 0 <= c < d {
            assert((i * m + f) * d + c == i * row + (f * d + c)) by (nonlinear_arith)
                requires
                    row == m * d,
            ;
            if i < n - 1 {
                assert(0 <= i * row + (f * d + c) < (n - 1) * row) by (nonlinear_arith)
                    requires
                        0 <= i < n - 1,
                        0 <= f * d + c < row,
                ;
                assert(before[i] == samples[i]);
            } else {
                assert(i == n - 1);
            }
        }
    }
}

} // verus!
