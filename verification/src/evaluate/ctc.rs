//! Decoding of frame-wise class scores along the best path.

use vstd::prelude::*;

use crate::ieee::{Real32, NEG_INFINITY_32};

verus! {

/// The first place that holds the highest value, and that value: place 0 and
/// negative infinity where nothing lies above it.
pub open spec fn highest(row: Seq<Real32>) -> (int, Real32)
    decreases row.len(),
{
    if row.len() == 0 {
        (0, Real32 { bits: NEG_INFINITY_32 })
    } else {
        let before = highest(row.drop_last());
        if before.1.less(row.last()) {
            (row.len() - 1, row.last())
        } else {
            before
        }
    }
}

/// Nothing lies above the highest value, and it stands at its place unless no
/// value lies above negative infinity.
pub proof fn law_highest_is_highest(row: Seq<Real32>, i: int)
    requires
        0 <= i < row.len(),
    ensures
        !highest(row).1.nan(),
        !highest(row).1.less(row[i]),
        0 <= highest(row).0 < row.len(),
        (Real32 { bits: NEG_INFINITY_32 }).less(highest(row).1) ==> row[highest(row).0] == highest(
            row,
        ).1,
    decreases row.len(),
{
    if row.len() > 1 {
        if i < row.len() - 1 {
            law_highest_is_highest(row.drop_last(), i);
        } else {
            law_highest_is_highest(row.drop_last(), 0);
        }
    } else {
        reveal_with_fuel(highest, 2);
        assert(row.drop_last() =~= Seq::<Real32>::empty());
    }
}

/// The scores of frame `t`.
pub open spec fn frame_row(scores: Seq<Real32>, classes: int, t: int) -> Seq<Real32> {
    scores.subrange(t * classes, (t + 1) * classes)
}

/// The best class of each frame.
pub open spec fn best_classes(scores: Seq<Real32>, frames: nat, classes: int) -> Seq<usize> {
    Seq::new(frames, |t: int| highest(frame_row(scores, classes, t)).0 as usize)
}

/// A run of frames with one class.
#[derive(Debug, Clone, Copy, PartialEq, Eq, Structural)]
pub struct Segment {
    pub class: usize,
    pub start: usize,
    pub end: usize,
}

/// Where the run that starts at `from` ends.
pub open spec fn run_end(best: Seq<usize>, class: usize, from: int) -> int
    decreases best.len() - from,
{
    if from < best.len() && best[from] == class {
        run_end(best, class, from + 1)
    } else {
        from
    }
}

pub proof fn lemma_run_end(best: Seq<usize>, class: usize, from: int)
    requires
        0 <= from <= best.len(),
    ensures
        from <= run_end(best, class, from) <= best.len(),
        forall|t: int| from <= t < run_end(best, class, from) ==> #[trigger] best[t] == class,
        run_end(best, class, from) < best.len() ==> best[run_end(best, class, from)] != class,
    decreases best.len() - from,
{
    if from < best.len() && best[from] == class {
        lemma_run_end(best, class, from + 1);
    }
}

/// The runs from `from` on, those of the blank class 0 left out.
pub open spec fn segments_from(best: Seq<usize>, from: int) -> Seq<Segment>
    decreases best.len() - from,
{
    if from < 0 || from >= best.len() {
        seq![]
    } else if best[from] == 0 {
        segments_from(best, from + 1)
    } else {
        proof {
            lemma_run_end(best, best[from], from + 1);
        }
        let end = run_end(best, best[from], from);
        seq![Segment { class: best[from], start: from as usize, end: end as usize }]
            + segments_from(best, end)
    }
}

/// The best path through the scores of `frames` frames, each with one score
/// for each of `classes` classes.
pub open spec fn best_path(scores: Seq<Real32>, frames: nat, classes: nat) -> Seq<Segment> {
    if frames == 0 || classes == 0 || scores.len() < frames * classes {
        seq![]
    } else {
        segments_from(best_classes(scores, frames, classes as int), 0)
    }
}

fn best_in_frame(scores: &Vec<Real32>, base: usize, classes: usize) -> (r: usize)
    requires
        base + classes <= scores@.len(),
        classes > 0,
    ensures
        r == highest(scores@.subrange(base as int, base + classes)).0,
        r < classes,
{
    let ghost row = scores@.subrange(base as int, base + classes);
    let n: usize = scores.len();
    let mut place: usize = 0;
    let mut value: Real32 = Real32::new(NEG_INFINITY_32);
    let mut c: usize = 0;
    assert(row.take(0) =~= Seq::<Real32>::empty());
    while c < classes
        invariant
            n == scores@.len(),
            base + classes <= n,
            c <= classes,
            classes > 0,
            place < classes,
            row == scores@.subrange(base as int, base + classes),
            (place as int, value) == highest(row.take(c as int)),
        decreases classes - c,
    {
        let ghost upto = row.take(c + 1);
        assert(upto.drop_last() =~= row.take(c as int));
        assert(upto.last() == scores@[base + c]);
        let next: Real32 = scores[base + c];
        if value.lt(next) {
            value = next;
            place = c;
        }
        c = c + 1;
    }
    assert(row.take(classes as int) =~= row);
    place
}

/// CTC best-path decoding: the best class of each frame, with repeats
/// collapsed and blanks left out. Scores that do not fill the frames give no
/// segment.
pub fn ctc_best_path(scores: &Vec<Real32>, num_frames: usize, num_classes: usize) -> (r: Vec<
    Segment,
>)
    requires
        num_frames * num_classes <= usize::MAX,
    ensures
        r@ == best_path(scores@, num_frames as nat, num_classes as nat),
{
    if num_frames == 0 || num_classes == 0 || scores.len() < num_frames * num_classes {
        return Vec::new();
    }
    let ghost all = best_classes(scores@, num_frames as nat, num_classes as int);
    let n: usize = scores.len();
    let mut best: Vec<usize> = Vec::new();
    let mut t: usize = 0;
    while t < num_frames
        invariant
            t <= num_frames,
            num_classes > 0,
            n == scores@.len(),
            num_frames * num_classes <= n,
            all == best_classes(scores@, num_frames as nat, num_classes as int),
            best@ == all.take(t as int),
        decreases num_frames - t,
    {
        assert((t + 1) * num_classes <= num_frames * num_classes) by (nonlinear_arith)
            requires
                t + 1 <= num_frames,
        ;
        assert((t + 1) * num_classes == t * num_classes + num_classes) by (nonlinear_arith);
        let class: usize = best_in_frame(scores, t * num_classes, num_classes);
        best.push(class);
        assert(class == all[t as int]);
        assert(best@ =~= all.take(t + 1));
        t = t + 1;
    }
    assert(best@ =~= all);
    let mut out: Vec<Segment> = Vec::new();
    let mut i: usize = 0;
    while i < num_frames
        invariant
            i <= num_frames,
            best@.len() == num_frames,
            segments_from(best@, 0) == out@ + segments_from(best@, i as int),
        decreases num_frames - i,
    {
        let class: usize = best[i];
        if class == 0 {
            i = i + 1;
        } else {
            let start: usize = i;
            proof {
                lemma_run_end(best@, class, start as int);
            }
            while i < num_frames && best[i] == class
                invariant
                    start <= i <= num_frames,
                    best@.len() == num_frames,
                    run_end(best@, class, start as int) == run_end(best@, class, i as int),
                decreases num_frames - i,
            {
                i = i + 1;
            }
            let ghost before = out@;
            let segment = Segment { class, start, end: i };
            out.push(segment);
            assert(run_end(best@, class, start as int) == i);
            assert(out@ + segments_from(best@, i as int) =~= before + (seq![segment]
                + segments_from(best@, i as int)));
        }
    }
    assert(out@ + segments_from(best@, num_frames as int) =~= out@);
    out
}

/// A list of segments as decoding gives it: none is empty or blank, they
/// follow each other, and where two touch their classes differ.
pub open spec fn well_formed(segments: Seq<Segment>, from: int, frames: int) -> bool {
    &&& forall|i: int|
        0 <= i < segments.len() ==> (#[trigger] segments[i]).class != 0 && from <= segments[i].start
            < segments[i].end <= frames
    &&& forall|i: int, j: int|
        0 <= i < j < segments.len() ==> segments[i].end <= segments[j].start
    &&& forall|i: int|
        0 <= i < segments.len() - 1 && (#[trigger] segments[i]).end == segments[i + 1].start
            ==> segments[i].class != segments[i + 1].class
}

/// The best path is well-formed.
pub proof fn law_best_path_is_well_formed(scores: Seq<Real32>, frames: nat, classes: nat)
    requires
        frames <= usize::MAX,
    ensures
        well_formed(best_path(scores, frames, classes), 0, frames as int),
{
    if frames > 0 && classes > 0 && scores.len() >= frames * classes {
        law_segments_cover_path(best_classes(scores, frames, classes as int), 0);
    }
}

/// The segments are runs of the best classes: within a segment every frame has
/// its class, they follow each other without overlap, and every frame that is
/// not blank lies in one.
pub proof fn law_segments_cover_path(best: Seq<usize>, from: int)
    requires
        0 <= from <= best.len() <= usize::MAX,
    ensures
        well_formed(segments_from(best, from), from, best.len() as int),
        forall|i: int, t: int|
            0 <= i < segments_from(best, from).len() && segments_from(best, from)[i].start <= t
                < segments_from(best, from)[i].end ==> #[trigger] best[t]
                == (#[trigger] segments_from(best, from)[i]).class,
        forall|t: int|
            from <= t < best.len() && #[trigger] best[t] != 0 ==> exists|i: int|
                0 <= i < segments_from(best, from).len() && (#[trigger] segments_from(
                    best,
                    from,
                )[i]).start <= t < segments_from(best, from)[i].end,
    decreases best.len() - from,
{
    if from < best.len() {
        if best[from] == 0 {
            law_segments_cover_path(best, from + 1);
        } else {
            let class = best[from];
            let end = run_end(best, class, from);
            lemma_run_end(best, class, from);
            lemma_run_end(best, class, from + 1);
            law_segments_cover_path(best, end);
            let first = Segment { class, start: from as usize, end: end as usize };
            let rest = segments_from(best, end);
            let all = segments_from(best, from);
            assert(all == seq![first] + rest);
            assert forall|i: int| 0 <= i < rest.len() implies all[i + 1] == rest[i] by {}
            assert forall|i: int| 1 <= i < all.len() implies all[i] == rest[i - 1] by {}
            if rest.len() > 0 && rest[0].start == end {
                assert(best[end] == rest[0].class);
                assert(best[end] != class);
            }
            assert forall|t: int| from <= t < best.len() && #[trigger] best[t] != 0 implies exists|
                i: int,
            | 0 <= i < all.len() && (#[trigger] all[i]).start <= t < all[i].end by {
                if t < end {
                    assert(all[0].start <= t < all[0].end);
                } else {
                    let i = choose|i: int|
                        0 <= i < rest.len() && (#[trigger] rest[i]).start <= t < rest[i].end;
                    assert(all[i + 1].start <= t < all[i + 1].end);
                }
            }
        }
    }
}

} // verus!
