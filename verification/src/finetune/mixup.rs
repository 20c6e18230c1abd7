//! Which words are mixed with which.

use rand::Rng;
use vstd::prelude::*;

use crate::ieee::{Real32, EPSILON_32};

verus! {

/// `rand::Rng::random_range` on the thread's generator `rand::rng`: some
/// number below `n`. Which one is left to chance.
#[verifier::external_body]
fn random_below(n: usize) -> (r: usize)
    requires
        n > 0,
    ensures
        r < n,
{
    rand::rng().random_range(0..n)
}

/// Whether words are mixed at all: mixup is on, and there are two to mix.
pub fn mixup_applies(alpha: Real32, words: usize) -> (r: bool)
    ensures
        r == ((Real32 { bits: EPSILON_32 }).less(alpha) && words > 1),
{
    Real32::new(EPSILON_32).lt(alpha) && words > 1
}

/// The words whose raw score is `below` at most, from front to back.
pub open spec fn low_scores(raw_scores: Seq<i32>, below: i32) -> Seq<usize>
    decreases raw_scores.len(),
{
    if raw_scores.len() == 0 {
        seq![]
    } else {
        let before = low_scores(raw_scores.drop_last(), below);
        if raw_scores.last() <= below {
            before.push((raw_scores.len() - 1) as usize)
        } else {
            before
        }
    }
}

/// The words that a partner is mixed into: those of low score.
pub fn mixup_anchors(raw_scores: &Vec<i32>, below: i32) -> (r: Vec<usize>)
    ensures
        r@ == low_scores(raw_scores@, below),
        forall|k: int| 0 <= k < r@.len() ==> #[trigger] r@[k] < raw_scores@.len(),
{
    let n: usize = raw_scores.len();
    let mut out: Vec<usize> = Vec::new();
    let mut i: usize = 0;
    assert(raw_scores@.take(0) =~= Seq::<i32>::empty());
    while i < n
        invariant
            n == raw_scores@.len(),
            i <= n,
            out@ == low_scores(raw_scores@.take(i as int), below),
            forall|k: int| 0 <= k < out@.len() ==> #[trigger] out@[k] < n,
        decreases n - i,
    {
        let ghost upto = raw_scores@.take(i + 1);
        assert(upto.drop_last() =~= raw_scores@.take(i as int));
        if raw_scores[i] <= below {
            out.push(i);
        }
        i = i + 1;
    }
    assert(raw_scores@.take(n as int) =~= raw_scores@);
    out
}

/// The word that a draw among all words but `anchor` picks.
pub open spec fn drawn(anchor: int, draw: int) -> int {
    if draw < anchor {
        draw
    } else {
        draw + 1
    }
}

/// The partner of `anchor` that `draw` picks among the other `n - 1` words.
pub fn partner_from_draw(anchor: usize, n: usize, draw: usize) -> (r: usize)
    requires
        anchor < n,
        draw < n - 1,
    ensures
        r == drawn(anchor as int, draw as int),
        r < n,
        r != anchor,
{
    if draw < anchor {
        draw
    } else {
        draw + 1
    }
}

/// Every other word is picked by exactly one draw.
pub proof fn law_every_partner_can_be_drawn(anchor: int, n: int, partner: int)
    requires
        0 <= anchor < n,
        0 <= partner < n,
        partner != anchor,
    ensures
        exists|draw: int| 0 <= draw < n - 1 && #[trigger] drawn(anchor, draw) == partner,
        forall|a: int, b: int|
            0 <= a < n - 1 && 0 <= b < n - 1 && #[trigger] drawn(anchor, a) == partner
                && #[trigger] drawn(anchor, b) == partner ==> a == b,
{
    let draw = if partner < anchor {
        partner
    } else {
        partner - 1
    };
    assert(drawn(anchor, draw) == partner);
}

/// The pairs that the words of low score make with the words that `draws`
/// picks for them, in order.
pub open spec fn pairs_of(anchors: Seq<usize>, draws: Seq<usize>) -> Seq<(usize, usize)> {
    Seq::new(
        anchors.len(),
        |k: int| (anchors[k], drawn(anchors[k] as int, draws[k] as int) as usize),
    )
}

/// The pairs to mix, given one draw for each word of low score.
pub fn mixup_pairs_from(anchors: &Vec<usize>, n: usize, draws: &Vec<usize>) -> (r: Vec<
    (usize, usize),
>)
    requires
        n > 1,
        draws@.len() == anchors@.len(),
        forall|k: int| 0 <= k < anchors@.len() ==> #[trigger] anchors@[k] < n,
        forall|k: int| 0 <= k < draws@.len() ==> #[trigger] draws@[k] < n - 1,
    ensures
        r@ == pairs_of(anchors@, draws@),
{
    let m: usize = anchors.len();
    let mut out: Vec<(usize, usize)> = Vec::new();
    let mut k: usize = 0;
    while k < m
        invariant
            m == anchors@.len(),
            m == draws@.len(),
            k <= m,
            n > 1,
            forall|i: int| 0 <= i < anchors@.len() ==> #[trigger] anchors@[i] < n,
            forall|i: int| 0 <= i < draws@.len() ==> #[trigger] draws@[i] < n - 1,
            out@ == pairs_of(anchors@, draws@).take(k as int),
        decreases m - k,
    {
        let partner: usize = partner_from_draw(anchors[k], n, draws[k]);
        out.push((anchors[k], partner));
        k = k + 1;
        assert(out@ =~= pairs_of(anchors@, draws@).take(k as int));
    }
    assert(out@ =~= pairs_of(anchors@, draws@));
    out
}

/// The pairs to mix: each word of low score with another word, left to chance.
pub fn mixup_pairs(raw_scores: &Vec<i32>, below: i32) -> (r: Vec<(usize, usize)>)
    requires
        raw_scores@.len() > 1,
    ensures
        r@.len() == low_scores(raw_scores@, below).len(),
        forall|k: int|
            0 <= k < r@.len() ==> (#[trigger] r@[k]).0 == low_scores(raw_scores@, below)[k]
                && r@[k].1 < raw_scores@.len() && r@[k].1 != r@[k].0,
{
    let n: usize = raw_scores.len();
    let anchors = mixup_anchors(raw_scores, below);
    let m: usize = anchors.len();
    let mut draws: Vec<usize> = Vec::new();
    let mut k: usize = 0;
    while k < m
        invariant
            k <= m,
            n > 1,
            draws@.len() == k,
            forall|i: int| 0 <= i < draws@.len() ==> #[trigger] draws@[i] < n - 1,
        decreases m - k,
    {
        draws.push(random_below(n - 1));
        k = k + 1;
    }
    let pairs = mixup_pairs_from(&anchors, n, &draws);
    proof {
        assert forall|k: int| 0 <= k < pairs@.len() implies (#[trigger] pairs@[k]).0 == low_scores(
            raw_scores@,
            below,
        )[k] && pairs@[k].1 < raw_scores@.len() && pairs@[k].1 != pairs@[k].0 by {
            assert(anchors@[k] < n);
            assert(draws@[k] < n - 1);
        }
    }
    pairs
}

} // verus!
