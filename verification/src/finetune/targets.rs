//! Targets and masks of the scoring losses, from the raw scores of a batch.

use vstd::prelude::*;

verus! {

/// Raw scores this far apart at most are close.
pub const TRIPLET_POSITIVE_GAP: i64 = 1;

/// Raw scores this far apart at least are far from each other.
pub const TRIPLET_NEGATIVE_GAP: i64 = 3;

pub open spec fn bin_of(raw_score: int) -> int {
    if raw_score <= 2 {
        0
    } else if raw_score <= 5 {
        1
    } else if raw_score <= 7 {
        2
    } else if raw_score <= 9 {
        3
    } else {
        4
    }
}

/// The ordinal class of a raw score: up to 2, 3 to 5, 6 and 7, 8 and 9, 10.
pub fn ordinal_bin_index(raw_score: i32) -> (r: usize)
    ensures
        r == bin_of(raw_score as int),
        r < 5,
{
    if raw_score <= 2 {
        0
    } else if raw_score <= 5 {
        1
    } else if raw_score <= 7 {
        2
    } else if raw_score <= 9 {
        3
    } else {
        4
    }
}

/// A higher raw score is never in a lower class.
pub proof fn law_bins_are_ordered(a: int, b: int)
    requires
        a <= b,
    ensures
        bin_of(a) <= bin_of(b),
        0 <= bin_of(a) < 5,
{
}

/// The score that a word's weight is looked up by: its ordinal class where the
/// loss is ordinal, its raw score elsewhere.
pub open spec fn bucket(raw_score: i32, ordinal: bool) -> i32 {
    if ordinal {
        bin_of(raw_score as int) as i32
    } else {
        raw_score
    }
}

pub fn score_bucket(raw_score: i32, ordinal: bool) -> (r: i32)
    ensures
        r == bucket(raw_score, ordinal),
{
    if ordinal {
        ordinal_bin_index(raw_score) as i32
    } else {
        raw_score
    }
}

// ---------------------------------------------------------------------------
// Matrices of truth values, row by row
// ---------------------------------------------------------------------------

/// Row `i` of a matrix with `width` columns.
pub open spec fn row(i: int, width: nat, cell: spec_fn(int, int) -> bool) -> Seq<bool> {
    Seq::new(width, |j: int| cell(i, j))
}

/// The first `height` rows of a matrix, one after the other.
pub open spec fn rows(height: nat, width: nat, cell: spec_fn(int, int) -> bool) -> Seq<bool>
    decreases height,
{
    if height == 0 {
        seq![]
    } else {
        rows((height - 1) as nat, width, cell) + row(height - 1, width, cell)
    }
}

/// The cell in row `i` and column `j` stands at `i * width + j`.
pub proof fn law_matrix_cell(
    height: nat,
    width: nat,
    cell: spec_fn(int, int) -> bool,
    i: int,
    j: int,
)
    ensures
        rows(height, width, cell).len() == height * width,
        0 <= i < height && 0 <= j < width ==> 0 <= i * width + j < height * width && rows(
            height,
            width,
            cell,
        )[i * width + j] == cell(i, j),
    decreases height,
{
    if height == 0 {
        assert(height * width == 0) by (nonlinear_arith)
            requires
                height == 0,
        ;
    } else {
        law_matrix_cell((height - 1) as nat, width, cell, i, j);
        let h = height as int;
        let w = width as int;
        assert((h - 1) * w + w == h * w) by (nonlinear_arith);
        if 0 <= i < h && 0 <= j < w {
            assert(0 <= i * w + j < h * w) by (nonlinear_arith)
                requires
                    0 <= i < h,
                    0 <= j < w,
            ;
        }
    }
}

/// How many of `s` are true.
pub open spec fn count_true(s: Seq<bool>) -> nat
    decreases s.len(),
{
    if s.len() == 0 {
        0
    } else {
        count_true(s.drop_last()) + if s.last() {
            1nat
        } else {
            0nat
        }
    }
}

pub proof fn lemma_count_true_bound(s: Seq<bool>)
    ensures
        count_true(s) <= s.len(),
    decreases s.len(),
{
    if s.len() > 0 {
        lemma_count_true_bound(s.drop_last());
    }
}

// ---------------------------------------------------------------------------
// Ordinal targets
// ---------------------------------------------------------------------------

/// The raw score above which threshold `k` is passed.
pub open spec fn threshold(k: int) -> int {
    if k == 0 {
        2
    } else if k == 1 {
        5
    } else if k == 2 {
        7
    } else {
        9
    }
}

pub open spec fn passes(raw_scores: Seq<i32>) -> spec_fn(int, int) -> bool {
    |i: int, k: int| raw_scores[i] > threshold(k)
}

/// For each score, which of the four thresholds it passes.
pub fn ordinal_targets(raw_scores: &Vec<i32>) -> (r: Vec<bool>)
    ensures
        r@ == rows(raw_scores@.len(), 4, passes(raw_scores@)),
{
    let n: usize = raw_scores.len();
    let ghost cell = passes(raw_scores@);
    let mut out: Vec<bool> = Vec::new();
    let mut i: usize = 0;
    while i < n
        invariant
            n == raw_scores@.len(),
            i <= n,
            cell == passes(raw_scores@),
            out@ == rows(i as nat, 4, cell),
        decreases n - i,
    {
        let ghost before = out@;
        let raw: i32 = raw_scores[i];
        out.push(raw > 2);
        out.push(raw > 5);
        out.push(raw > 7);
        out.push(raw > 9);
        assert(out@ =~= before + row(i as int, 4, cell));
        i = i + 1;
    }
    out
}

pub open spec fn is_bin(raw_scores: Seq<i32>) -> spec_fn(int, int) -> bool {
    |i: int, k: int| bin_of(raw_scores[i] as int) == k
}

/// For each score, its class as one of five.
pub fn ordinal_softmax_targets(raw_scores: &Vec<i32>) -> (r: Vec<bool>)
    ensures
        r@ == rows(raw_scores@.len(), 5, is_bin(raw_scores@)),
{
    let n: usize = raw_scores.len();
    let ghost cell = is_bin(raw_scores@);
    let mut out: Vec<bool> = Vec::new();
    let mut i: usize = 0;
    while i < n
        invariant
            n == raw_scores@.len(),
            i <= n,
            cell == is_bin(raw_scores@),
            out@ == rows(i as nat, 5, cell),
        decreases n - i,
    {
        let ghost before = out@;
        let bin: usize = ordinal_bin_index(raw_scores[i]);
        out.push(bin == 0);
        out.push(bin == 1);
        out.push(bin == 2);
        out.push(bin == 3);
        out.push(bin == 4);
        assert(out@ =~= before + row(i as int, 5, cell));
        i = i + 1;
    }
    out
}

/// A score passes as many thresholds as the number of its class says.
pub proof fn law_thresholds_agree_with_bins(raw: int, k: int)
    requires
        0 <= k < 4,
    ensures
        raw > threshold(k) <==> bin_of(raw) > k,
{
}

// ---------------------------------------------------------------------------
// Masks over pairs
// ---------------------------------------------------------------------------

pub open spec fn same_score(raw_scores: Seq<i32>) -> spec_fn(int, int) -> bool {
    |i: int, j: int| raw_scores[i] == raw_scores[j]
}

/// Which pairs have the same score.
pub fn positive_mask(raw_scores: &Vec<i32>) -> (r: Vec<bool>)
    ensures
        r@ == rows(raw_scores@.len(), raw_scores@.len(), same_score(raw_scores@)),
{
    let n: usize = raw_scores.len();
    let ghost cell = same_score(raw_scores@);
    let mut out: Vec<bool> = Vec::new();
    let mut i: usize = 0;
    while i < n
        invariant
            n == raw_scores@.len(),
            i <= n,
            cell == same_score(raw_scores@),
            out@ == rows(i as nat, n as nat, cell),
        decreases n - i,
    {
        let ghost before = out@;
        let mut j: usize = 0;
        while j < n
            invariant
                n == raw_scores@.len(),
                i < n,
                j <= n,
                cell == same_score(raw_scores@),
                out@ == before + row(i as int, j as nat, cell),
            decreases n - j,
        {
            out.push(raw_scores[i] == raw_scores[j]);
            j = j + 1;
            assert(out@ =~= before + row(i as int, j as nat, cell));
        }
        i = i + 1;
    }
    out
}

pub open spec fn higher_score(raw_scores: Seq<i32>) -> spec_fn(int, int) -> bool {
    |i: int, j: int| raw_scores[i] > raw_scores[j]
}

/// Which pairs are ranked, the first above the second, and how many they are.
pub fn pairwise_mask(raw_scores: &Vec<i32>) -> (r: (Vec<bool>, usize))
    ensures
        r.0@ == rows(raw_scores@.len(), raw_scores@.len(), higher_score(raw_scores@)),
        r.1 == count_true(r.0@),
{
    let n: usize = raw_scores.len();
    let ghost cell = higher_score(raw_scores@);
    let mut out: Vec<bool> = Vec::new();
    let mut pairs: usize = 0;
    let mut i: usize = 0;
    while i < n
        invariant
            n == raw_scores@.len(),
            i <= n,
            cell == higher_score(raw_scores@),
            out@ == rows(i as nat, n as nat, cell),
            pairs == count_true(out@),
        decreases n - i,
    {
        let ghost before = out@;
        let mut j: usize = 0;
        while j < n
            invariant
                n == raw_scores@.len(),
                i < n,
                j <= n,
                cell == higher_score(raw_scores@),
                out@ == before + row(i as int, j as nat, cell),
                pairs == count_true(out@),
            decreases n - j,
        {
            let ranked = raw_scores[i] > raw_scores[j];
            let ghost upto = out@;
            out.push(ranked);
            assert(out@.drop_last() =~= upto);
            let total: usize = out.len();
            proof {
                lemma_count_true_bound(out@);
            }
            if ranked {
                assert(count_true(out@) == pairs + 1);
                assert(pairs < total);
                pairs = pairs + 1;
            }
            j = j + 1;
            assert(out@ =~= before + row(i as int, j as nat, cell));
        }
        i = i + 1;
    }
    (out, pairs)
}

pub open spec fn off_diagonal() -> spec_fn(int, int) -> bool {
    |i: int, j: int| i != j
}

/// Which of the pairs of `n` are pairs of two.
pub fn off_diagonal_mask(n: usize) -> (r: Vec<bool>)
    ensures
        r@ == rows(n as nat, n as nat, off_diagonal()),
{
    let ghost cell = off_diagonal();
    let mut out: Vec<bool> = Vec::new();
    let mut i: usize = 0;
    while i < n
        invariant
            i <= n,
            cell == off_diagonal(),
            out@ == rows(i as nat, n as nat, cell),
        decreases n - i,
    {
        let ghost before = out@;
        let mut j: usize = 0;
        while j < n
            invariant
                i < n,
                j <= n,
                cell == off_diagonal(),
                out@ == before + row(i as int, j as nat, cell),
            decreases n - j,
        {
            out.push(i != j);
            j = j + 1;
            assert(out@ =~= before + row(i as int, j as nat, cell));
        }
        i = i + 1;
    }
    out
}

// ---------------------------------------------------------------------------
// Triplets
// ---------------------------------------------------------------------------

pub open spec fn score_gap(a: i32, b: i32) -> int {
    if a >= b {
        a - b
    } else {
        b - a
    }
}

pub open spec fn close_to(raw_scores: Seq<i32>) -> spec_fn(int, int) -> bool {
    |i: int, j: int| i != j && score_gap(raw_scores[i], raw_scores[j]) <= TRIPLET_POSITIVE_GAP
}

pub open spec fn far_from(raw_scores: Seq<i32>) -> spec_fn(int, int) -> bool {
    |i: int, j: int| i != j && score_gap(raw_scores[i], raw_scores[j]) >= TRIPLET_NEGATIVE_GAP
}

/// The masks of the triplet loss.
pub struct TripletMasks {
    /// Which other words are close to an anchor.
    pub positive: Vec<bool>,
    /// Which other words are far from an anchor.
    pub negative: Vec<bool>,
    /// How many are close, by anchor.
    pub positive_counts: Vec<usize>,
    /// How many are far, by anchor.
    pub negative_counts: Vec<usize>,
    /// Which anchors have both.
    pub valid_anchors: Vec<bool>,
    /// How many anchors have both.
    pub valid_count: usize,
}

pub open spec fn row_counts(height: nat, width: nat, cell: spec_fn(int, int) -> bool) -> Seq<
    usize,
> {
    Seq::new(height, |i: int| count_true(row(i, width, cell)) as usize)
}

/// For each word as an anchor, which words are close to it and which are far.
pub fn triplet_masks(raw_scores: &Vec<i32>) -> (r: TripletMasks)
    ensures
        ({
            let n = raw_scores@.len();
            &&& r.positive@ == rows(n, n, close_to(raw_scores@))
            &&& r.negative@ == rows(n, n, far_from(raw_scores@))
            &&& r.positive_counts@ == row_counts(n, n, close_to(raw_scores@))
            &&& r.negative_counts@ == row_counts(n, n, far_from(raw_scores@))
            &&& r.valid_anchors@ == Seq::new(
                n,
                |i: int| r.positive_counts@[i] > 0 && r.negative_counts@[i] > 0,
            )
            &&& r.valid_count == count_true(r.valid_anchors@)
        }),
{
    let n: usize = raw_scores.len();
    let ghost near = close_to(raw_scores@);
    let ghost far = far_from(raw_scores@);
    let mut positive: Vec<bool> = Vec::new();
    let mut negative: Vec<bool> = Vec::new();
    let mut positive_counts: Vec<usize> = Vec::new();
    let mut negative_counts: Vec<usize> = Vec::new();
    let mut valid_anchors: Vec<bool> = Vec::new();
    let mut valid_count: usize = 0;
    let mut i: usize = 0;
    while i < n
        invariant
            n == raw_scores@.len(),
            i <= n,
            near == close_to(raw_scores@),
            far == far_from(raw_scores@),
            positive@ == rows(i as nat, n as nat, near),
            negative@ == rows(i as nat, n as nat, far),
            positive_counts@ == row_counts(i as nat, n as nat, near),
            negative_counts@ == row_counts(i as nat, n as nat, far),
            valid_anchors@.len() == i,
            forall|k: int|
                0 <= k < i ==> #[trigger] valid_anchors@[k] == (positive_counts@[k] > 0
                    && negative_counts@[k] > 0),
            valid_count == count_true(valid_anchors@),
            valid_count <= i,
        decreases n - i,
    {
        let ghost positive_before = positive@;
        let ghost negative_before = negative@;
        let mut close: usize = 0;
        let mut distant: usize = 0;
        let mut j: usize = 0;
        while j < n
            invariant
                n == raw_scores@.len(),
                i < n,
                j <= n,
                near == close_to(raw_scores@),
                far == far_from(raw_scores@),
                positive@ == positive_before + row(i as int, j as nat, near),
                negative@ == negative_before + row(i as int, j as nat, far),
                close == count_true(row(i as int, j as nat, near)),
                distant == count_true(row(i as int, j as nat, far)),
                close <= j,
                distant <= j,
            decreases n - j,
        {
            let a: i64 = raw_scores[i] as i64;
            let b: i64 = raw_scores[j] as i64;
            let gap: i64 = if a >= b {
                a - b
            } else {
                b - a
            };
            let is_close = i != j && gap <= TRIPLET_POSITIVE_GAP;
            let is_far = i != j && gap >= TRIPLET_NEGATIVE_GAP;
            positive.push(is_close);
            negative.push(is_far);
            proof {
                let p = row(i as int, j as nat + 1, near);
                let q = row(i as int, j as nat + 1, far);
                assert(p.drop_last() =~= row(i as int, j as nat, near));
                assert(q.drop_last() =~= row(i as int, j as nat, far));
                assert(p.last() == is_close);
                assert(q.last() == is_far);
            }
            if is_close {
                close = close + 1;
            }
            if is_far {
                distant = distant + 1;
            }
            j = j + 1;
            assert(positive@ =~= positive_before + row(i as int, j as nat, near));
            assert(negative@ =~= negative_before + row(i as int, j as nat, far));
        }
        let ghost anchors_before = valid_anchors@;
        positive_counts.push(close);
        negative_counts.push(distant);
        assert(positive_counts@ =~= row_counts(i as nat + 1, n as nat, near));
        assert(negative_counts@ =~= row_counts(i as nat + 1, n as nat, far));
        let valid = close > 0 && distant > 0;
        valid_anchors.push(valid);
        assert(valid_anchors@.drop_last() =~= anchors_before);
        if valid {
            valid_count = valid_count + 1;
        }
        i = i + 1;
    }
    assert(valid_anchors@ =~= Seq::new(
        n as nat,
        |k: int| positive_counts@[k] > 0 && negative_counts@[k] > 0,
    ));
    TripletMasks {
        positive,
        negative,
        positive_counts,
        negative_counts,
        valid_anchors,
        valid_count,
    }
}

} // verus!
