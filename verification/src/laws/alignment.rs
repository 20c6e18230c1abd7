//! Pronunciation scores: which frames count for a phoneme, and which scores are
//! compared.

use vstd::prelude::*;

use crate::evaluate::ctc::Segment;
use crate::evaluate::gop::Alignment;
use crate::evaluate::{ctc, gop};
use crate::ieee::{Real32, Real64};
use crate::phoneme_map;
use crate::text::Separator;
use crate::{model, text};

verus! {

// ---------------------------------------------------------------------------
// Best classes
// ---------------------------------------------------------------------------

proof fn lemma_highest_first(row: Seq<Real32>, j: int)
    requires
        0 <= j < row.len(),
    ensures
        j < ctc::highest(row).0 && !row[j].nan() ==> row[j].less(ctc::highest(row).1),
    decreases row.len(),
{
    let front = row.drop_last();
    if front.len() > 0 {
        ctc::law_highest_is_highest(front, 0);
    }
    if j < front.len() {
        lemma_highest_first(front, j);
        ctc::law_highest_is_highest(front, j);
        assert(front[j] == row[j]);
    } else {
        assert(ctc::highest(front).0 <= j);
    }
}

/// The best class of a frame is the first whose score no other score of the frame
/// exceeds.
pub proof fn law_best_class_of_a_frame(
    scores: Seq<Real32>,
    frames: nat,
    classes: nat,
    t: int,
    k: int,
)
    requires
        classes <= usize::MAX,
        scores.len() >= frames * classes,
        0 <= t < frames,
        0 <= k < classes,
        !scores[t * classes + k].nan(),
    ensures
        ({
            let best = ctc::best_classes(scores, frames, classes as int)[t];
            &&& best < classes
            &&& Real32 { bits: 0xff80_0000 }.less(scores[t * classes + k])
                ==> scores[t * classes + k].at_most(scores[t * classes + best])
            &&& Real32 { bits: 0xff80_0000 }.less(scores[t * classes + k]) && k < best
                ==> scores[t * classes + k].less(scores[t * classes + best])
        }),
{
    let c = classes as int;
    let row = ctc::frame_row(scores, c, t);
    assert(t * c + c == (t + 1) * c && (t + 1) * c <= frames * c && 0 <= t * c) by (
    nonlinear_arith)
        requires
            0 <= t,
            t + 1 <= frames,
            0 <= c,
    ;
    assert(row.len() == c);
    assert(row[k] == scores[t * c + k]);
    ctc::law_highest_is_highest(row, k);
    lemma_highest_first(row, k);
    let best = ctc::highest(row).0;
    assert(ctc::best_classes(scores, frames, c)[t] == best as usize);
    assert(row[best] == scores[t * c + best]);
}

/// On the best path of some scores, every frame of a segment has the segment's
/// class as its best class, and every frame whose best class is not blank lies in
/// a segment.
pub proof fn law_best_path_follows_scores(scores: Seq<Real32>, frames: nat, classes: nat, t: int)
    requires
        frames <= usize::MAX,
        0 < classes,
        scores.len() >= frames * classes,
        0 <= t < frames,
    ensures
        ({
            let path = ctc::best_path(scores, frames, classes);
            let best = ctc::best_classes(scores, frames, classes as int)[t];
            &&& forall|i: int|
                0 <= i < path.len() && (#[trigger] path[i]).start <= t < path[i].end
                    ==> path[i].class == best
            &&& best != 0 ==> exists|i: int|
                0 <= i < path.len() && (#[trigger] path[i]).start <= t < path[i].end
        }),
{
    let best = ctc::best_classes(scores, frames, classes as int);
    ctc::law_segments_cover_path(best, 0);
    let path = ctc::best_path(scores, frames, classes);
    assert(path == ctc::segments_from(best, 0));
    assert forall|i: int| 0 <= i < path.len() && (#[trigger] path[i]).start <= t
        < path[i].end implies path[i].class == best[t] by {
        assert(ctc::segments_from(best, 0)[i] == path[i]);
    }
    if best[t] != 0 {
        let i = choose|i: int|
            0 <= i < ctc::segments_from(best, 0).len() && (#[trigger] ctc::segments_from(
                best,
                0,
            )[i]).start <= t < ctc::segments_from(best, 0)[i].end;
        assert(path[i].start <= t < path[i].end);
    }
}

// ---------------------------------------------------------------------------
// Alignment
// ---------------------------------------------------------------------------

/// Whether segment `k` of a path is of `class` and shares a frame with the word.
pub open spec fn meets(path: Seq<Segment>, k: int, class: usize, start: int, end: int) -> bool {
    &&& 0 <= k < path.len()
    &&& path[k].class == class
    &&& exists|t: int| path[k].start <= t < path[k].end && #[trigger] in_span(t, start, end)
}

pub open spec fn in_span(t: int, start: int, end: int) -> bool {
    start <= t < end
}

/// Whether the frames from `s` to `e` are those that segment `k` shares with the
/// word.
pub open spec fn shares(path: Seq<Segment>, k: int, start: int, end: int, s: int, e: int) -> bool {
    forall|t: int|
        s <= t < e <==> path[k].start <= t < path[k].end && #[trigger] in_span(t, start, end)
}

/// Whether segment `k` is the first of a path that is of `class` and meets the
/// word.
pub open spec fn first_meets(
    path: Seq<Segment>,
    k: int,
    class: usize,
    start: int,
    end: int,
) -> bool {
    &&& meets(path, k, class, start, end)
    &&& forall|j: int| j < k ==> !#[trigger] meets(path, j, class, start, end)
}

proof fn lemma_meets(path: Seq<Segment>, k: int, class: usize, start: int, end: int)
    requires
        0 <= k < path.len(),
        path[k].start < path[k].end,
        start < end,
    ensures
        meets(path, k, class, start, end) <==> path[k].class == class && path[k].start < end
            && path[k].end > start,
{
    let s = path[k];
    if s.class == class && s.start < end && s.end > start {
        let t = if s.start < start {
            start
        } else {
            s.start as int
        };
        assert(in_span(t, start, end));
    }
}

proof fn lemma_first_match(path: Seq<Segment>, class: usize, start: usize, end: usize)
    requires
        forall|i: int| 0 <= i < path.len() ==> (#[trigger] path[i]).start < path[i].end,
        start < end,
    ensures
        match gop::first_match(path, class, start, end) {
            Some(found) => exists|k: int| #[trigger]
                meets(path, k, class, start as int, end as int) && path[k] == found && forall|
                    j: int,
                | j < k ==> !#[trigger] meets(path, j, class, start as int, end as int),
            None => forall|k: int| !#[trigger] meets(path, k, class, start as int, end as int),
        },
    decreases path.len(),
{
    if path.len() > 0 {
        let n = path.len() - 1;
        let front = path.drop_last();
        assert forall|i: int| 0 <= i < front.len() implies (#[trigger] front[i]).start
            < front[i].end by {
            assert(front[i] == path[i]);
        }
        lemma_first_match(front, class, start, end);
        assert forall|k: int| k != n implies #[trigger] meets(
            path,
            k,
            class,
            start as int,
            end as int,
        ) == meets(front, k, class, start as int, end as int) by {
            if 0 <= k < front.len() {
                assert(path[k] == front[k]);
                lemma_meets(path, k, class, start as int, end as int);
                lemma_meets(front, k, class, start as int, end as int);
            }
        }
        assert(path[n].start < path[n].end);
        lemma_meets(path, n, class, start as int, end as int);
        match gop::first_match(front, class, start, end) {
            Some(found) => {
                let k = choose|k: int| #[trigger]
                    meets(front, k, class, start as int, end as int) && front[k] == found && forall|
                        j: int,
                    | j < k ==> !#[trigger] meets(front, j, class, start as int, end as int);
                assert(meets(path, k, class, start as int, end as int));
            },
            None => {
                if meets(path, n, class, start as int, end as int) {
                    assert(path[n] == path.last());
                }
            },
        }
    }
}

/// The frames that a phoneme is aligned with are exactly those that lie both in
/// the word and in the first segment of the phoneme's class that meets the word;
/// it is deleted exactly where no segment of its class does.
pub proof fn law_alignment_is_the_shared_frames(
    path: Seq<Segment>,
    class: usize,
    start: usize,
    end: usize,
)
    requires
        forall|i: int| 0 <= i < path.len() ==> (#[trigger] path[i]).start < path[i].end,
        start < end,
    ensures
        match gop::alignment_of(path, class, start, end) {
            Some(Alignment::Frames { class: c, start: s, end: e }) => c == class && s < e && exists|
                k: int,
            | #[trigger]
                first_meets(path, k, class, start as int, end as int) && shares(
                    path,
                    k,
                    start as int,
                    end as int,
                    s as int,
                    e as int,
                ),
            Some(Alignment::Deleted) => forall|k: int|
                !#[trigger] meets(path, k, class, start as int, end as int),
            None => false,
        },
{
    lemma_first_match(path, class, start, end);
    match gop::first_match(path, class, start, end) {
        Some(found) => {
            let k = choose|k: int| #[trigger]
                meets(path, k, class, start as int, end as int) && path[k] == found && forall|
                    j: int,
                | j < k ==> !#[trigger] meets(path, j, class, start as int, end as int);
            assert(path[k].start < path[k].end);
            lemma_meets(path, k, class, start as int, end as int);
            assert(first_meets(path, k, class, start as int, end as int));
        },
        None => {},
    }
}

/// The phonemes of a word are aligned one by one, in order.
pub proof fn law_phonemes_are_aligned_in_order(
    path: Seq<Segment>,
    classes: Seq<usize>,
    start: usize,
    end: usize,
    i: int,
)
    requires
        forall|k: int| 0 <= k < path.len() ==> (#[trigger] path[k]).start < path[k].end,
        start < end,
        0 <= i < classes.len(),
    ensures
        gop::alignments(path, classes, start, end).len() == classes.len(),
        Some(gop::alignments(path, classes, start, end)[i]) == gop::alignment_of(
            path,
            classes[i],
            start,
            end,
        ),
    decreases classes.len(),
{
    let front = classes.drop_last();
    law_alignment_is_the_shared_frames(path, classes.last(), start, end);
    if front.len() > 0 {
        law_phonemes_are_aligned_in_order(
            path,
            front,
            start,
            end,
            if i < front.len() {
                i
            } else {
                0
            },
        );
    } else {
        assert(gop::alignments(path, front, start, end) =~= Seq::<Alignment>::empty());
    }
}

/// On a best path, every frame that a phoneme is aligned with has the phoneme's
/// class as its best class.
pub proof fn law_aligned_frames_have_the_class(
    scores: Seq<Real32>,
    frames: nat,
    classes: nat,
    class: usize,
    start: usize,
    end: usize,
    t: int,
)
    requires
        frames <= usize::MAX,
        0 < classes,
        scores.len() >= frames * classes,
        start < end,
        0 <= t < frames,
        gop::alignment_of(ctc::best_path(scores, frames, classes), class, start, end) matches Some(
            Alignment::Frames { start: s, end: e, .. },
        ) && s <= t < e,
    ensures
        start <= t < end,
        ctc::best_classes(scores, frames, classes as int)[t] == class,
{
    let path = ctc::best_path(scores, frames, classes);
    ctc::law_best_path_is_well_formed(scores, frames, classes);
    law_alignment_is_the_shared_frames(path, class, start, end);
    law_best_path_follows_scores(scores, frames, classes, t);
    match gop::alignment_of(path, class, start, end) {
        Some(Alignment::Frames { class: c, start: s, end: e }) => {
            let k = choose|k: int| #[trigger]
                first_meets(path, k, class, start as int, end as int) && shares(
                    path,
                    k,
                    start as int,
                    end as int,
                    s as int,
                    e as int,
                );
            assert(in_span(t, start as int, end as int));
            assert(path[k].start <= t < path[k].end);
        },
        _ => {},
    }
}

/// The classes of a word are the indices of its phonemes that the model knows, in
/// order; a phoneme that it does not know is left out.
pub proof fn law_classes_of_a_word(phonemes: Seq<Seq<char>>, num_classes: nat)
    ensures
        gop::classes_of(phonemes, num_classes) == phonemes.filter_map(
            |p: Seq<char>|
                match phoneme_map::symbol_index(p) {
                    Some(index) => if index < num_classes {
                        Some(index as usize)
                    } else {
                        None
                    },
                    None => None,
                },
        ),
    decreases phonemes.len(),
{
    let f = |p: Seq<char>|
        match phoneme_map::symbol_index(p) {
            Some(index) => if index < num_classes {
                Some(index as usize)
            } else {
                None
            },
            None => None,
        };
    if phonemes.len() > 0 {
        law_classes_of_a_word(phonemes.drop_last(), num_classes);
        phoneme_map::law_symbol_index_in_range(phonemes.last());
        assert(gop::classes_of(phonemes, num_classes) =~= phonemes.filter_map(f));
    } else {
        assert(gop::classes_of(phonemes, num_classes) =~= phonemes.filter_map(f));
    }
}

/// A word is aligned over its share of the utterance, phoneme by phoneme; a word
/// without a share, or scores that do not fill the frames, give nothing.
pub proof fn law_word_is_aligned_over_its_share(
    num_scores: nat,
    path: Seq<Segment>,
    frames: nat,
    classes: nat,
    phonemes: Seq<Seq<char>>,
    sentence: Seq<char>,
    position: int,
)
    ensures
        ({
            let found = gop::aligned_word(
                num_scores,
                path,
                frames,
                classes,
                phonemes,
                sentence,
                position,
            );
            let share = model::word_span(
                frames as int,
                text::runs(sentence, Separator::Whitespace).len() as int,
                position,
            );
            &&& num_scores < frames * classes ==> found.len() == 0
            &&& share is None ==> found.len() == 0
            &&& num_scores >= frames * classes && share is Some ==> found == gop::alignments(
                path,
                gop::classes_of(phonemes, classes),
                (share->0).0 as usize,
                (share->0).1 as usize,
            )
        }),
{
}

// ---------------------------------------------------------------------------
// Scores
// ---------------------------------------------------------------------------

/// The score of the strongest other class is the score of one of them, where any
/// is above negative infinity.
pub proof fn law_rival_is_one_of_the_others(
    scores: Seq<Real32>,
    classes: int,
    class: int,
    t: int,
    upto: nat,
)
    ensures
        ({
            let r = gop::rival(scores, classes, class, t, upto);
            r == (Real32 { bits: 0xff80_0000 }) || exists|k: int|
                0 <= k < upto && k != class && r == #[trigger] gop::score_at(
                    scores,
                    t * classes + k,
                )
        }),
    decreases upto,
{
    if upto > 0 {
        law_rival_is_one_of_the_others(scores, classes, class, t, (upto - 1) as nat);
        let last = upto - 1;
        assert(gop::score_at(scores, t * classes + last) == gop::score_at(
            scores,
            t * classes + (upto - 1),
        ));
    }
}

/// The best margin is none that another exceeds, and one of the margins where any
/// is above negative infinity.
pub proof fn law_best_margin(values: Seq<Real64>, i: int)
    requires
        0 <= i < values.len(),
    ensures
        !gop::peak(values).nan(),
        !gop::peak(values).less(values[i]),
        gop::peak(values) == (Real64 { bits: 0xfff0_0000_0000_0000 }) || values.contains(
            gop::peak(values),
        ),
    decreases values.len(),
{
    let front = values.drop_last();
    if front.len() > 0 {
        law_best_margin(
            front,
            if i < front.len() {
                i
            } else {
                0
            },
        );
        if front.contains(gop::peak(front)) {
            let k = choose|k: int| 0 <= k < front.len() && front[k] == gop::peak(front);
            assert(values[k] == gop::peak(front));
        }
    } else {
        assert(gop::peak(front) == Real64 { bits: 0xfff0_0000_0000_0000 });
    }
    assert(values[values.len() - 1] == values.last());
}

/// The scores of a class are read frame by frame: row `t`, column `class`.
pub proof fn law_scores_of_a_class(
    scores: Seq<Real32>,
    frames: nat,
    classes: nat,
    class: int,
    t: int,
)
    requires
        scores.len() >= frames * classes,
        0 <= class < classes,
        0 <= t < frames,
    ensures
        0 <= t * classes + class < scores.len(),
        gop::class_scores(scores, frames, classes as int, class)[t] == scores[t * classes + class],
{
    let c = classes as int;
    assert(0 <= t * c && t * c + c <= frames * c) by (nonlinear_arith)
        requires
            0 <= t,
            t + 1 <= frames,
            0 <= c,
    ;
}

} // verus!
