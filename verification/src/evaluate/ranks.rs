//! Ranks and resampling for rank correlation.

use vstd::prelude::*;

use crate::ieee::Real64;
use crate::order;
use crate::order::{stable_sort, Keyed};

verus! {

/// `order` holds each number below its length exactly once.
pub open spec fn permutation(order: Seq<usize>) -> bool {
    &&& forall|i: int| 0 <= i < order.len() ==> (#[trigger] order[i]) < order.len()
    &&& forall|i: int, j: int| 0 <= i < j < order.len() ==> order[i] != order[j]
}

/// `a` comes before `b` when values are put in order: its value is lower, or
/// the values are equal and it comes before `b` already.
pub open spec fn goes_before(values: Seq<Real64>, a: int, b: int) -> bool {
    values[a].place() < values[b].place() || (values[a].place() == values[b].place() && a < b)
}

fn key_of(value: Real64) -> (r: u64)
    requires
        !value.nan(),
    ensures
        r == value.place() + 0x8000_0000_0000_0000,
{
    if value.bits < 0x8000_0000_0000_0000 {
        value.bits + 0x8000_0000_0000_0000
    } else {
        0x8000_0000_0000_0000 - (value.bits - 0x8000_0000_0000_0000)
    }
}

/// The places of `values` in rising order of value; equal values stay in the
/// order that they have.
pub fn order_by_value(values: &Vec<Real64>) -> (r: Vec<usize>)
    requires
        forall|i: int| 0 <= i < values@.len() ==> !(#[trigger] values@[i]).nan(),
    ensures
        r@.len() == values@.len(),
        permutation(r@),
        forall|i: int, j: int|
            0 <= i < j < r@.len() ==> goes_before(
                values@,
                #[trigger] r@[i] as int,
                #[trigger] r@[j] as int,
            ),
{
    let n: usize = values.len();
    let mut keyed: Vec<Keyed<usize>> = Vec::new();
    let mut i: usize = 0;
    while i < n
        invariant
            n == values@.len(),
            i <= n,
            keyed@.len() == i,
            forall|k: int| 0 <= k < values@.len() ==> !(#[trigger] values@[k]).nan(),
            forall|k: int|
                0 <= k < i ==> (#[trigger] keyed@[k]).item == k && keyed@[k].key
                    == values@[k].place() + 0x8000_0000_0000_0000,
        decreases n - i,
    {
        keyed.push(Keyed { key: key_of(values[i]), item: i });
        i = i + 1;
    }
    let ghost before = keyed@;
    let sorted = stable_sort(keyed);
    proof {
        order::lemma_same_length(before, sorted@);
        assert forall|k: int| 0 <= k < sorted@.len() implies (#[trigger] sorted@[k]).item < n
            && sorted@[k].key == values@[sorted@[k].item as int].place()
            + 0x8000_0000_0000_0000 by {
            order::lemma_sorted_member(before, sorted@, k);
        }
        assert forall|a: int, b: int| 0 <= a < b < sorted@.len() implies goes_before(
            values@,
            (#[trigger] sorted@[a]).item as int,
            (#[trigger] sorted@[b]).item as int,
        ) by {
            order::lemma_sorted_places(before, sorted@, a, b);
        }
    }
    let mut out: Vec<usize> = Vec::new();
    let mut k: usize = 0;
    while k < n
        invariant
            n == sorted@.len(),
            k <= n,
            out@.len() == k,
            forall|m: int| 0 <= m < k ==> (#[trigger] out@[m]) == sorted@[m].item,
        decreases n - k,
    {
        out.push(sorted[k].item);
        k = k + 1;
    }
    out
}

/// The bounds of the group of ties that place `p` belongs to, where `from`
/// starts a group, and a group that starts at `i` ends before `reach[i]`.
pub open spec fn group_from(reach: Seq<usize>, from: int, p: int) -> (int, int)
    decreases p - from,
{
    if p < reach[from] || reach[from] <= from {
        (from, reach[from] as int)
    } else {
        group_from(reach, reach[from] as int, p)
    }
}

/// Twice the rank of place `p`: the average of the ranks of its group.
pub open spec fn doubled_rank(reach: Seq<usize>, p: int) -> int {
    let group = group_from(reach, 0, p);
    group.0 + group.1 + 1
}

/// Every group ends behind its start, and none behind the last place.
pub open spec fn sound_reach(reach: Seq<usize>) -> bool {
    forall|i: int| 0 <= i < reach.len() ==> i < (#[trigger] reach[i]) <= reach.len()
}

/// Twice the rank of each value, with ranks counted from one and ties sharing
/// the average of their ranks. `order` holds the places in rising order, and
/// `reach[i]` says where the values that are tied with the one at place `i` of
/// that order end.
pub fn tied_ranks(order: &Vec<usize>, reach: &Vec<usize>) -> (r: Vec<usize>)
    requires
        permutation(order@),
        reach@.len() == order@.len(),
        sound_reach(reach@),
        2 * order@.len() < usize::MAX,
    ensures
        r@.len() == order@.len(),
        forall|p: int|
            0 <= p < order@.len() ==> r@[#[trigger] order@[p] as int] == doubled_rank(reach@, p),
{
    let n: usize = order.len();
    let mut out: Vec<usize> = Vec::new();
    let mut filled: usize = 0;
    while filled < n
        invariant
            filled <= n,
            out@.len() == filled,
        decreases n - filled,
    {
        out.push(0);
        filled = filled + 1;
    }
    let mut i: usize = 0;
    while i < n
        invariant
            n == order@.len(),
            i <= n,
            out@.len() == n,
            permutation(order@),
            reach@.len() == n,
            sound_reach(reach@),
            2 * n < usize::MAX,
            forall|p: int| i <= p < n ==> #[trigger] group_from(reach@, 0, p) == group_from(
                reach@,
                i as int,
                p,
            ),
            forall|p: int|
                0 <= p < i ==> out@[#[trigger] order@[p] as int] == doubled_rank(reach@, p),
        decreases n - i,
    {
        let j: usize = reach[i];
        let mut p: usize = i;
        while p < j
            invariant
                n == order@.len(),
                i < j <= n,
                i <= p <= j,
                j == reach@[i as int],
                out@.len() == n,
                permutation(order@),
                2 * n < usize::MAX,
                forall|q: int| i <= q < n ==> #[trigger] group_from(reach@, 0, q) == group_from(
                    reach@,
                    i as int,
                    q,
                ),
                forall|q: int|
                    0 <= q < p ==> out@[#[trigger] order@[q] as int] == doubled_rank(reach@, q),
            decreases j - p,
        {
            assert(group_from(reach@, 0, p as int) == group_from(reach@, i as int, p as int));
            out.set(order[p], i + j + 1);
            p = p + 1;
        }
        assert forall|q: int| j <= q < n implies #[trigger] group_from(reach@, 0, q) == group_from(
            reach@,
            j as int,
            q,
        ) by {
            assert(group_from(reach@, 0, q) == group_from(reach@, i as int, q));
        }
        i = j;
    }
    out
}

proof fn lemma_group_holds(reach: Seq<usize>, from: int, p: int)
    requires
        sound_reach(reach),
        0 <= from <= p < reach.len(),
    ensures
        from <= group_from(reach, from, p).0 <= p < group_from(reach, from, p).1,
        group_from(reach, from, p).1 <= reach.len(),
    decreases p - from,
{
    if p >= reach[from] {
        lemma_group_holds(reach, reach[from] as int, p);
    }
}

proof fn lemma_groups_follow(reach: Seq<usize>, from: int, p: int, q: int)
    requires
        sound_reach(reach),
        0 <= from <= p <= q < reach.len(),
    ensures
        group_from(reach, from, p) == group_from(reach, from, q) || group_from(reach, from, p).1
            <= group_from(reach, from, q).0,
    decreases p - from,
{
    if p >= reach[from] {
        lemma_groups_follow(reach, reach[from] as int, p, q);
    } else if q >= reach[from] {
        lemma_group_holds(reach, reach[from] as int, q);
    }
}

/// Ranks rise with the order: a later place has no lower rank, and only ties
/// have equal ones.
pub proof fn law_ranks_rise(reach: Seq<usize>, p: int, q: int)
    requires
        sound_reach(reach),
        0 <= p <= q < reach.len(),
    ensures
        doubled_rank(reach, p) <= doubled_rank(reach, q),
        doubled_rank(reach, p) == doubled_rank(reach, q) <==> group_from(reach, 0, p)
            == group_from(reach, 0, q),
{
    lemma_groups_follow(reach, 0, p, q);
    lemma_group_holds(reach, 0, p);
    lemma_group_holds(reach, 0, q);
}

/// The sum of the doubled ranks of the places before `to`.
pub open spec fn rank_sum(reach: Seq<usize>, to: nat) -> int
    decreases to,
{
    if to == 0 {
        0
    } else {
        rank_sum(reach, (to - 1) as nat) + doubled_rank(reach, to - 1)
    }
}

proof fn lemma_group_sum(reach: Seq<usize>, i: int, to: int)
    requires
        sound_reach(reach),
        0 <= i < reach.len(),
        i <= to <= reach[i],
        forall|p: int| i <= p < reach.len() ==> #[trigger] group_from(reach, 0, p) == group_from(
            reach,
            i,
            p,
        ),
    ensures
        rank_sum(reach, to as nat) == rank_sum(reach, i as nat) + (to - i) * (i + reach[i] + 1),
    decreases to - i,
{
    let each = i + reach[i] + 1;
    if to == i {
        assert((to - i) * each == 0) by (nonlinear_arith)
            requires
                to == i,
        ;
    } else {
        lemma_group_sum(reach, i, to - 1);
        assert(group_from(reach, 0, to - 1) == group_from(reach, i, to - 1));
        assert((to - i) * each == (to - 1 - i) * each + each) by (nonlinear_arith);
    }
}

proof fn lemma_rank_sum(reach: Seq<usize>, i: int)
    requires
        sound_reach(reach),
        0 <= i <= reach.len(),
        rank_sum(reach, i as nat) == i * (i + 1),
        forall|p: int| i <= p < reach.len() ==> #[trigger] group_from(reach, 0, p) == group_from(
            reach,
            i,
            p,
        ),
    ensures
        rank_sum(reach, reach.len()) == reach.len() * (reach.len() + 1),
    decreases reach.len() - i,
{
    if i < reach.len() {
        let j = reach[i] as int;
        lemma_group_sum(reach, i, j);
        assert(i * (i + 1) + (j - i) * (i + j + 1) == j * (j + 1)) by (nonlinear_arith);
        assert forall|p: int| j <= p < reach.len() implies #[trigger] group_from(reach, 0, p)
            == group_from(reach, j, p) by {
            assert(group_from(reach, 0, p) == group_from(reach, i, p));
        }
        lemma_rank_sum(reach, j);
    }
}

/// Ties do not change the sum of the ranks: it is that of the numbers from one
/// to the number of values.
pub proof fn law_rank_sum(reach: Seq<usize>)
    requires
        sound_reach(reach),
    ensures
        rank_sum(reach, reach.len()) == reach.len() * (reach.len() + 1),
{
    lemma_rank_sum(reach, 0);
}

// ---------------------------------------------------------------------------
// Resampling
// ---------------------------------------------------------------------------

/// The state that resampling starts with.
pub const BOOTSTRAP_SEED: u64 = 42;

/// The multiplier of the linear congruential generator.
pub const LCG_MULTIPLIER: u64 = 6_364_136_223_846_793_005;

/// The state after `state`.
pub open spec fn lcg(state: u64) -> u64 {
    ((state * LCG_MULTIPLIER + 1) % 0x1_0000_0000_0000_0000) as u64
}

/// The state after `steps` steps.
pub open spec fn lcg_after(state: u64, steps: nat) -> u64
    decreases steps,
{
    if steps == 0 {
        state
    } else {
        lcg(lcg_after(state, (steps - 1) as nat))
    }
}

/// The place that a state picks out of `n`: its upper 31 bits, reduced.
pub open spec fn picked(state: u64, n: int) -> int {
    (state as int / 0x2_0000_0000) % n
}

fn next_state(state: u64) -> (r: u64)
    ensures
        r == lcg(state),
{
    assert(state * LCG_MULTIPLIER <= 0xffff_ffff_ffff_ffff * 0xffff_ffff_ffff_ffff)
        by (nonlinear_arith)
        requires
            state <= 0xffff_ffff_ffff_ffff,
            LCG_MULTIPLIER <= 0xffff_ffff_ffff_ffff,
    ;
    let product: u128 = state as u128 * LCG_MULTIPLIER as u128;
    let next: u128 = (product + 1) % 0x1_0000_0000_0000_0000;
    next as u64
}

/// One resample of `n` places with replacement, and the state that the next
/// one starts with.
pub fn resample(state: u64, n: usize) -> (r: (Vec<usize>, u64))
    requires
        n > 0,
    ensures
        r.0@.len() == n,
        forall|i: int|
            0 <= i < n ==> (#[trigger] r.0@[i]) == picked(lcg_after(state, (i + 1) as nat), n as int)
                && r.0@[i] < n,
        r.1 == lcg_after(state, n as nat),
{
    let mut out: Vec<usize> = Vec::new();
    let mut s: u64 = state;
    let mut i: usize = 0;
    while i < n
        invariant
            n > 0,
            i <= n,
            out@.len() == i,
            s == lcg_after(state, i as nat),
            forall|k: int|
                0 <= k < i ==> (#[trigger] out@[k]) == picked(
                    lcg_after(state, (k + 1) as nat),
                    n as int,
                ) && out@[k] < n,
        decreases n - i,
    {
        s = next_state(s);
        let upper: u64 = s / 0x2_0000_0000;
        assert(upper <= 0x7fff_ffff);
        out.push(upper as usize % n);
        i = i + 1;
    }
    (out, s)
}

} // verus!
