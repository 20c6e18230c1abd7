//! Goodness of pronunciation: what of the scores of an utterance a word is
//! measured by.

use vstd::prelude::*;

use super::ctc;
use super::ctc::Segment;
use crate::ieee::{Real32, Real64, NEG_INFINITY_32, NEG_INFINITY_64};
use crate::model;
use crate::model::proportional_word_frame_span;
use crate::phoneme_map;
use crate::phoneme_map::arpabet_to_idx;
use crate::text;
use crate::text::{split_whitespace, Separator};

verus! {

/// The classes of those phonemes that are known and have a class, in order.
pub open spec fn classes_of(phonemes: Seq<Seq<char>>, num_classes: nat) -> Seq<usize>
    decreases phonemes.len(),
{
    if phonemes.len() == 0 {
        seq![]
    } else {
        let before = classes_of(phonemes.drop_last(), num_classes);
        match phoneme_map::symbol_index(phonemes.last()) {
            Some(idx) => if 0 <= idx < num_classes {
                before.push(idx as usize)
            } else {
                before
            },
            None => before,
        }
    }
}

/// The frames of the word at `position` of a sentence.
pub open spec fn span_in_sentence(sentence: Seq<char>, position: int, frames: int) -> Option<
    (int, int),
> {
    model::word_span(frames, text::runs(sentence, Separator::Whitespace).len() as int, position)
}

/// What a word is measured by: the classes of its phonemes, over its frames.
pub struct WordPlan {
    pub classes: Vec<usize>,
    pub start: usize,
    pub end: usize,
}

impl WordPlan {
    /// The plan for a word among `frames` frames and `classes` classes.
    pub open spec fn fits(self, frames: nat, classes: nat) -> bool {
        &&& self.start < self.end <= frames
        &&& self.classes@.len() > 0
        &&& forall|i: int| 0 <= i < self.classes@.len() ==> (#[trigger] self.classes@[i]) < classes
    }
}

/// The plan for a word; `None` where none of its phonemes has a class, and
/// where the word gets no frame.
pub fn plan_word(
    num_frames: usize,
    num_classes: usize,
    phonemes: &Vec<String>,
    sentence_text: &str,
    word_position: usize,
) -> (r: Option<WordPlan>)
    ensures
        match r {
            Some(plan) => plan.classes@ == classes_of(
                text::strings(phonemes@),
                num_classes as nat,
            ) && span_in_sentence(sentence_text@, word_position as int, num_frames as int) == Some(
                (plan.start as int, plan.end as int),
            ) && plan.fits(num_frames as nat, num_classes as nat),
            None => classes_of(text::strings(phonemes@), num_classes as nat).len() == 0
                || span_in_sentence(
                sentence_text@,
                word_position as int,
                num_frames as int,
            ) is None,
        },
{
    let ghost all = text::strings(phonemes@);
    let mut classes: Vec<usize> = Vec::new();
    let n: usize = phonemes.len();
    let mut i: usize = 0;
    assert(all.take(0) =~= Seq::<Seq<char>>::empty());
    while i < n
        invariant
            n == phonemes@.len(),
            i <= n,
            all == text::strings(phonemes@),
            classes@ == classes_of(all.take(i as int), num_classes as nat),
            forall|k: int| 0 <= k < classes@.len() ==> (#[trigger] classes@[k]) < num_classes,
        decreases n - i,
    {
        let ghost upto = all.take(i + 1);
        assert(upto.drop_last() =~= all.take(i as int));
        assert(upto.last() == phonemes@[i as int]@);
        if let Some(idx) = arpabet_to_idx(phonemes[i].as_str()) {
            if idx >= 0 && (idx as u32 as u64) < num_classes as u64 {
                classes.push(idx as usize);
            }
        }
        i = i + 1;
    }
    assert(all.take(n as int) =~= all);
    if classes.len() == 0 {
        return None;
    }
    let words: usize = split_whitespace(sentence_text).len();
    assert(words == text::runs(sentence_text@, Separator::Whitespace).len());
    match proportional_word_frame_span(num_frames, words, word_position) {
        Some((start, end)) => Some(WordPlan { classes, start, end }),
        None => None,
    }
}

/// The score at `k`; negative infinity where there is none.
pub open spec fn score_at(scores: Seq<Real32>, k: int) -> Real32 {
    if 0 <= k < scores.len() {
        scores[k]
    } else {
        Real32 { bits: NEG_INFINITY_32 }
    }
}

fn read_score(scores: &Vec<Real32>, k: usize) -> (r: Real32)
    ensures
        r == score_at(scores@, k as int),
{
    if k < scores.len() {
        scores[k]
    } else {
        Real32::new(NEG_INFINITY_32)
    }
}

/// The scores of one class over the frames of a word.
pub open spec fn class_scores(scores: Seq<Real32>, frames: nat, classes: int, class: int) -> Seq<
    Real32,
> {
    Seq::new(frames, |t: int| score_at(scores, t * classes + class))
}

proof fn lemma_cell(frames: int, classes: int, t: int, class: int)
    requires
        0 <= t < frames,
        0 <= class < classes,
    ensures
        0 <= t * classes,
        0 <= t * classes + class < frames * classes,
{
    assert(0 <= t * classes && t * classes + classes <= frames * classes) by (nonlinear_arith)
        requires
            0 <= t < frames,
            0 < classes,
    ;
}

/// The highest score of one class over the frames of a word.
pub fn best_score(scores: &Vec<Real32>, frames: usize, classes: usize, class: usize) -> (r: Real32)
    requires
        class < classes,
        frames * classes <= usize::MAX,
    ensures
        r == ctc::highest(class_scores(scores@, frames as nat, classes as int, class as int)).1,
{
    let ghost all = class_scores(scores@, frames as nat, classes as int, class as int);
    let mut best: Real32 = Real32::new(NEG_INFINITY_32);
    let mut t: usize = 0;
    assert(all.take(0) =~= Seq::<Real32>::empty());
    while t < frames
        invariant
            t <= frames,
            class < classes,
            frames * classes <= usize::MAX,
            all == class_scores(scores@, frames as nat, classes as int, class as int),
            best == ctc::highest(all.take(t as int)).1,
        decreases frames - t,
    {
        proof {
            lemma_cell(frames as int, classes as int, t as int, class as int);
        }
        let ghost upto = all.take(t + 1);
        assert(upto.drop_last() =~= all.take(t as int));
        let score: Real32 = read_score(scores, t * classes + class);
        assert(upto.last() == score);
        if best.lt(score) {
            best = score;
        }
        t = t + 1;
    }
    assert(all.take(frames as int) =~= all);
    best
}

/// The highest score of frame `t` among the first `upto` classes, `class` left
/// out.
pub open spec fn rival(
    scores: Seq<Real32>,
    classes: int,
    class: int,
    t: int,
    upto: nat,
) -> Real32
    decreases upto,
{
    if upto == 0 {
        Real32 { bits: NEG_INFINITY_32 }
    } else {
        let before = rival(scores, classes, class, t, (upto - 1) as nat);
        let score = score_at(scores, t * classes + (upto - 1));
        if upto - 1 != class && before.less(score) {
            score
        } else {
            before
        }
    }
}

/// No other class scores above the rival of a class.
pub proof fn law_rival_is_best_other(
    scores: Seq<Real32>,
    classes: int,
    class: int,
    t: int,
    upto: nat,
    other: int,
)
    requires
        0 <= other < upto,
        other != class,
    ensures
        !rival(scores, classes, class, t, upto).nan(),
        !rival(scores, classes, class, t, upto).less(score_at(scores, t * classes + other)),
    decreases upto,
{
    if other < upto - 1 {
        law_rival_is_best_other(scores, classes, class, t, (upto - 1) as nat, other);
    } else {
        lemma_rival_is_number(scores, classes, class, t, (upto - 1) as nat);
    }
}

proof fn lemma_rival_is_number(
    scores: Seq<Real32>,
    classes: int,
    class: int,
    t: int,
    upto: nat,
)
    ensures
        !rival(scores, classes, class, t, upto).nan(),
    decreases upto,
{
    if upto > 0 {
        lemma_rival_is_number(scores, classes, class, t, (upto - 1) as nat);
    }
}

/// For each frame of a word the score of a class, and the highest score of any
/// other class: what the margin of the class is the difference of.
pub fn margin_terms(scores: &Vec<Real32>, frames: usize, classes: usize, class: usize) -> (r: Vec<
    (Real32, Real32),
>)
    requires
        class < classes,
        frames * classes <= usize::MAX,
    ensures
        r@ == Seq::new(
            frames as nat,
            |t: int|
                (
                    score_at(scores@, t * classes + class),
                    rival(scores@, classes as int, class as int, t, classes as nat),
                ),
        ),
{
    let mut out: Vec<(Real32, Real32)> = Vec::new();
    let mut t: usize = 0;
    while t < frames
        invariant
            t <= frames,
            class < classes,
            frames * classes <= usize::MAX,
            out@.len() == t,
            forall|k: int|
                0 <= k < t ==> (#[trigger] out@[k]) == (
                    score_at(scores@, k * classes + class),
                    rival(scores@, classes as int, class as int, k, classes as nat),
                ),
        decreases frames - t,
    {
        let mut other: Real32 = Real32::new(NEG_INFINITY_32);
        let mut c: usize = 0;
        while c < classes
            invariant
                t < frames,
                c <= classes,
                frames * classes <= usize::MAX,
                other == rival(scores@, classes as int, class as int, t as int, c as nat),
            decreases classes - c,
        {
            proof {
                lemma_cell(frames as int, classes as int, t as int, c as int);
            }
            if c != class {
                let score: Real32 = read_score(scores, t * classes + c);
                if other.lt(score) {
                    other = score;
                }
            }
            c = c + 1;
        }
        proof {
            lemma_cell(frames as int, classes as int, t as int, class as int);
        }
        let score: Real32 = read_score(scores, t * classes + class);
        out.push((score, other));
        t = t + 1;
    }
    out
}

/// The highest of `values`; negative infinity where nothing lies above it.
pub open spec fn peak(values: Seq<Real64>) -> Real64
    decreases values.len(),
{
    if values.len() == 0 {
        Real64 { bits: NEG_INFINITY_64 }
    } else {
        let before = peak(values.drop_last());
        if before.less(values.last()) {
            values.last()
        } else {
            before
        }
    }
}

/// The highest of `values`.
pub fn best_margin(values: &Vec<Real64>) -> (r: Real64)
    ensures
        r == peak(values@),
{
    let n: usize = values.len();
    let mut best: Real64 = Real64::new(NEG_INFINITY_64);
    let mut i: usize = 0;
    assert(values@.take(0) =~= Seq::<Real64>::empty());
    while i < n
        invariant
            n == values@.len(),
            i <= n,
            best == peak(values@.take(i as int)),
        decreases n - i,
    {
        let ghost upto = values@.take(i + 1);
        assert(upto.drop_last() =~= values@.take(i as int));
        if best.lt(values[i]) {
            best = values[i];
        }
        i = i + 1;
    }
    assert(values@.take(n as int) =~= values@);
    best
}

// ---------------------------------------------------------------------------
// Self-alignment
// ---------------------------------------------------------------------------

/// How a phoneme shows on the best path.
#[derive(Debug, Clone, Copy, PartialEq, Eq, Structural)]
pub enum Alignment {
    /// Not at all.
    Deleted,
    /// Over these frames.
    Frames { class: usize, start: usize, end: usize },
}

/// The first segment of `class` that shares a frame with a word.
pub open spec fn first_match(path: Seq<Segment>, class: usize, start: usize, end: usize) -> Option<
    Segment,
>
    decreases path.len(),
{
    if path.len() == 0 {
        None
    } else {
        match first_match(path.drop_last(), class, start, end) {
            Some(found) => Some(found),
            None => {
                let last = path.last();
                if last.class == class && last.start < end && last.end > start {
                    Some(last)
                } else {
                    None
                }
            },
        }
    }
}

/// How a class shows on the part of the best path that belongs to a word;
/// `None` where its segment has no frame there.
pub open spec fn alignment_of(path: Seq<Segment>, class: usize, start: usize, end: usize) -> Option<
    Alignment,
> {
    match first_match(path, class, start, end) {
        None => Some(Alignment::Deleted),
        Some(found) => {
            let from = if found.start < start {
                start
            } else {
                found.start
            };
            let to = if found.end < end {
                found.end
            } else {
                end
            };
            if from < to {
                Some(Alignment::Frames { class, start: from, end: to })
            } else {
                None
            }
        },
    }
}

/// The alignments of several classes, in order.
pub open spec fn alignments(path: Seq<Segment>, classes: Seq<usize>, start: usize, end: usize) -> Seq<
    Alignment,
>
    decreases classes.len(),
{
    if classes.len() == 0 {
        seq![]
    } else {
        let before = alignments(path, classes.drop_last(), start, end);
        match alignment_of(path, classes.last(), start, end) {
            Some(alignment) => before.push(alignment),
            None => before,
        }
    }
}

fn find_match(path: &Vec<Segment>, class: usize, start: usize, end: usize) -> (r: Option<Segment>)
    ensures
        r == first_match(path@, class, start, end),
{
    let n: usize = path.len();
    let mut found: Option<Segment> = None;
    let mut i: usize = 0;
    assert(path@.take(0) =~= Seq::<Segment>::empty());
    while i < n
        invariant
            n == path@.len(),
            i <= n,
            found == first_match(path@.take(i as int), class, start, end),
        decreases n - i,
    {
        let ghost upto = path@.take(i + 1);
        assert(upto.drop_last() =~= path@.take(i as int));
        let segment: Segment = path[i];
        if found.is_none() && segment.class == class && segment.start < end && segment.end > start {
            found = Some(segment);
        }
        i = i + 1;
    }
    assert(path@.take(n as int) =~= path@);
    found
}

/// The alignments of the phonemes of a word: none where the scores do not fill
/// the frames, and where the word gets no frame.
pub open spec fn aligned_word(
    num_scores: nat,
    path: Seq<Segment>,
    num_frames: nat,
    num_classes: nat,
    phonemes: Seq<Seq<char>>,
    sentence: Seq<char>,
    position: int,
) -> Seq<Alignment> {
    if num_scores < num_frames * num_classes {
        seq![]
    } else {
        match span_in_sentence(sentence, position, num_frames as int) {
            Some((start, end)) => alignments(
                path,
                classes_of(phonemes, num_classes),
                start as usize,
                end as usize,
            ),
            None => seq![],
        }
    }
}

/// Aligns the phonemes of a word with the best path of its utterance, of which
/// there are `num_scores` scores; `None` where the scores do not fill the
/// frames, where the word has no plan, and where no phoneme can be scored.
pub fn self_align(
    num_scores: usize,
    path: &Vec<Segment>,
    num_frames: usize,
    num_classes: usize,
    phonemes: &Vec<String>,
    sentence_text: &str,
    word_position: usize,
) -> (r: Option<Vec<Alignment>>)
    requires
        num_frames * num_classes <= usize::MAX,
    ensures
        ({
            let all = aligned_word(
                num_scores as nat,
                path@,
                num_frames as nat,
                num_classes as nat,
                text::strings(phonemes@),
                sentence_text@,
                word_position as int,
            );
            match r {
                Some(found) => found@ == all && found@.len() > 0,
                None => all.len() == 0,
            }
        }),
        r matches Some(found) ==> forall|i: int|
            0 <= i < found@.len() ==> match #[trigger] found@[i] {
                Alignment::Deleted => true,
                Alignment::Frames { class, start, end } => class < num_classes && start < end
                    <= num_frames,
            },
{
    if num_scores < num_frames * num_classes {
        return None;
    }
    let plan = match plan_word(num_frames, num_classes, phonemes, sentence_text, word_position) {
        Some(plan) => plan,
        None => {
            return None;
        },
    };
    let ghost all = plan.classes@;
    let n: usize = plan.classes.len();
    let mut out: Vec<Alignment> = Vec::new();
    let mut i: usize = 0;
    assert(all.take(0) =~= Seq::<usize>::empty());
    while i < n
        invariant
            n == plan.classes@.len(),
            i <= n,
            all == plan.classes@,
            plan.fits(num_frames as nat, num_classes as nat),
            out@ == alignments(path@, all.take(i as int), plan.start, plan.end),
            forall|k: int|
                0 <= k < out@.len() ==> match #[trigger] out@[k] {
                    Alignment::Deleted => true,
                    Alignment::Frames { class, start, end } => class < num_classes && start < end
                        <= num_frames,
                },
        decreases n - i,
    {
        let ghost upto = all.take(i + 1);
        assert(upto.drop_last() =~= all.take(i as int));
        let class: usize = plan.classes[i];
        assert(upto.last() == class);
        match find_match(path, class, plan.start, plan.end) {
            None => {
                out.push(Alignment::Deleted);
            },
            Some(found) => {
                let from: usize = if found.start < plan.start {
                    plan.start
                } else {
                    found.start
                };
                let to: usize = if found.end < plan.end {
                    found.end
                } else {
                    plan.end
                };
                if from < to {
                    out.push(Alignment::Frames { class, start: from, end: to });
                }
            },
        }
        i = i + 1;
    }
    assert(all.take(n as int) =~= all);
    if out.len() == 0 {
        return None;
    }
    Some(out)
}

proof fn lemma_match_shares_frame(path: Seq<Segment>, class: usize, start: usize, end: usize)
    requires
        forall|i: int| 0 <= i < path.len() ==> (#[trigger] path[i]).start < path[i].end,
        start < end,
    ensures
        alignment_of(path, class, start, end) is Some,
        first_match(path, class, start, end) matches Some(found) ==> found.class == class
            && found.start < found.end && found.start < end && start < found.end,
    decreases path.len(),
{
    if path.len() > 0 {
        let front = path.drop_last();
        assert forall|i: int| 0 <= i < front.len() implies (#[trigger] front[i]).start
            < front[i].end by {
            assert(front[i] == path[i]);
        }
        lemma_match_shares_frame(front, class, start, end);
    }
}

/// On a best path every phoneme of a word is scored, found or not.
pub proof fn law_every_phoneme_is_aligned(
    path: Seq<Segment>,
    frames: int,
    classes: Seq<usize>,
    start: usize,
    end: usize,
)
    requires
        ctc::well_formed(path, 0, frames),
        start < end,
    ensures
        alignments(path, classes, start, end).len() == classes.len(),
    decreases classes.len(),
{
    if classes.len() > 0 {
        law_every_phoneme_is_aligned(path, frames, classes.drop_last(), start, end);
        lemma_match_shares_frame(path, classes.last(), start, end);
    }
}

} // verus!
