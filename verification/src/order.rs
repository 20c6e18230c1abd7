//! Stable sorting by an integer key.

use vstd::prelude::*;

verus! {

/// An item and the key that it is sorted by.
pub struct Keyed<T> {
    pub key: u64,
    pub item: T,
}

/// The keys do not fall.
pub open spec fn in_order<T>(s: Seq<Keyed<T>>) -> bool {
    forall|i: int, j: int| 0 <= i <= j < s.len() ==> s[i].key <= s[j].key
}

/// Those of `s` that have key `k`, in order.
pub open spec fn with_key<T>(s: Seq<Keyed<T>>, k: u64) -> Seq<Keyed<T>> {
    s.filter(|x: Keyed<T>| x.key == k)
}

/// `r` is `s` sorted stably: its keys do not fall, and the items of each key
/// are those of `s`, in the order that they have there.
pub open spec fn sorted_from<T>(s: Seq<Keyed<T>>, r: Seq<Keyed<T>>) -> bool {
    &&& in_order(r)
    &&& forall|k: u64| #[trigger] with_key(r, k) == with_key(s, k)
}

proof fn lemma_with_key_push<T>(s: Seq<Keyed<T>>, x: Keyed<T>, k: u64)
    ensures
        with_key(s.push(x), k) == if x.key == k {
            with_key(s, k).push(x)
        } else {
            with_key(s, k)
        },
{
    reveal(Seq::filter);
    assert(s.push(x).drop_last() =~= s);
}

proof fn lemma_with_key_add<T>(a: Seq<Keyed<T>>, b: Seq<Keyed<T>>, k: u64)
    ensures
        with_key(a + b, k) == with_key(a, k) + with_key(b, k),
    decreases b.len(),
{
    reveal(Seq::filter);
    if b.len() == 0 {
        assert(a + b =~= a);
        assert(with_key(a, k) + with_key(b, k) =~= with_key(a, k));
    } else {
        lemma_with_key_add(a, b.drop_last(), k);
        assert((a + b).drop_last() =~= a + b.drop_last());
        lemma_with_key_push(a + b.drop_last(), b.last(), k);
        lemma_with_key_push(b.drop_last(), b.last(), k);
        assert((a + b.drop_last()).push(b.last()) =~= a + b);
        assert(b.drop_last().push(b.last()) =~= b);
        assert(with_key(a + b, k) =~= with_key(a, k) + with_key(b, k));
    }
}

proof fn lemma_with_key_none<T>(s: Seq<Keyed<T>>, k: u64)
    requires
        forall|i: int| 0 <= i < s.len() ==> (#[trigger] s[i]).key != k,
    ensures
        with_key(s, k) == Seq::<Keyed<T>>::empty(),
    decreases s.len(),
{
    reveal(Seq::filter);
    if s.len() > 0 {
        lemma_with_key_none(s.drop_last(), k);
    }
}

/// Turns a list around.
fn reversed<T>(items: Vec<T>) -> (r: Vec<T>)
    ensures
        r@ == items@.reverse(),
{
    let mut items = items;
    let ghost all = items@;
    let mut out: Vec<T> = Vec::new();
    while items.len() > 0
        invariant
            items@.len() <= all.len(),
            items@ == all.take(items@.len() as int),
            out@ == all.skip(items@.len() as int).reverse(),
        decreases items@.len(),
    {
        let ghost before = items@.len() as int;
        if let Some(x) = items.pop() {
            out.push(x);
            assert(all.skip(before - 1).reverse() =~= all.skip(before).reverse().push(
                all[before - 1],
            ));
            assert(items@ =~= all.take(before - 1));
        }
    }
    assert(all.skip(0) =~= all);
    out
}

/// The items of two sorted lists in one; among equal keys, those of `left`
/// come first.
fn merge<T>(left: Vec<Keyed<T>>, right: Vec<Keyed<T>>) -> (r: Vec<Keyed<T>>)
    requires
        in_order(left@),
        in_order(right@),
    ensures
        sorted_from(left@ + right@, r@),
        r@.to_multiset() == (left@ + right@).to_multiset(),
{
    let mut left = left;
    let mut right = right;
    let ghost l0 = left@;
    let ghost r0 = right@;
    let mut out: Vec<Keyed<T>> = Vec::new();
    let ghost mut placed: Seq<Keyed<T>> = seq![];
    assert(out@ =~= placed.reverse());
    proof {
        assert forall|k: u64|
            with_key(l0, k) + with_key(r0, k) == #[trigger] with_key(left@, k) + with_key(right@, k)
                + with_key(placed, k) by {
            lemma_with_key_none(placed, k);
            assert(with_key(l0, k) + with_key(r0, k) + Seq::<Keyed<T>>::empty() =~= with_key(l0, k)
                + with_key(r0, k));
        }
        assert(l0 + r0 =~= left@ + right@ + placed);
    }
    while left.len() > 0 || right.len() > 0
        invariant
            in_order(left@),
            in_order(right@),
            in_order(placed),
            out@ == placed.reverse(),
            forall|i: int, j: int|
                0 <= i < left@.len() && 0 <= j < placed.len() ==> left@[i].key <= placed[j].key,
            forall|i: int, j: int|
                0 <= i < right@.len() && 0 <= j < placed.len() ==> right@[i].key <= placed[j].key,
            forall|k: u64|
                with_key(l0, k) + with_key(r0, k) == #[trigger] with_key(left@, k) + with_key(
                    right@,
                    k,
                ) + with_key(placed, k),
            (l0 + r0).to_multiset() == (left@ + right@ + placed).to_multiset(),
        decreases left@.len() + right@.len(),
    {
        let ghost l = left@;
        let ghost r = right@;
        let ghost p = placed;
        let n: usize = left.len();
        let m: usize = right.len();
        let from_right: bool = if n == 0 {
            true
        } else if m == 0 {
            false
        } else {
            left[n - 1].key <= right[m - 1].key
        };
        if from_right {
            if let Some(x) = right.pop() {
                out.push(x);
                proof {
                    placed = seq![x] + p;
                    assert(right@ =~= r.drop_last());
                    assert(x == r.last());
                    assert(out@ =~= placed.reverse());
                    assert forall|k: u64|
                        with_key(l0, k) + with_key(r0, k) == #[trigger] with_key(left@, k)
                            + with_key(right@, k) + with_key(placed, k) by {
                        assert(with_key(l0, k) + with_key(r0, k) == with_key(l, k) + with_key(r, k)
                            + with_key(p, k));
                        lemma_with_key_push(right@, x, k);
                        assert(right@.push(x) =~= r);
                        lemma_with_key_add(seq![x], p, k);
                        lemma_with_key_push(Seq::<Keyed<T>>::empty(), x, k);
                        lemma_with_key_none(Seq::<Keyed<T>>::empty(), k);
                        assert(Seq::<Keyed<T>>::empty().push(x) =~= seq![x]);
                        if x.key == k {
                            assert(with_key(seq![x], k) =~= seq![x]);
                            assert(with_key(l, k) + with_key(right@, k).push(x) + with_key(p, k)
                                =~= with_key(l, k) + with_key(right@, k) + (seq![x] + with_key(
                                p,
                                k,
                            )));
                        } else {
                            assert(with_key(seq![x], k) + with_key(p, k) =~= with_key(p, k));
                        }
                    }
                    assert(left@ + right@ + placed =~= l + r + p);
                }
            }
        } else {
            if let Some(x) = left.pop() {
                out.push(x);
                proof {
                    placed = seq![x] + p;
                    assert(left@ =~= l.drop_last());
                    assert(x == l.last());
                    assert(out@ =~= placed.reverse());
                    assert forall|k: u64|
                        with_key(l0, k) + with_key(r0, k) == #[trigger] with_key(left@, k)
                            + with_key(right@, k) + with_key(placed, k) by {
                        assert(with_key(l0, k) + with_key(r0, k) == with_key(l, k) + with_key(r, k)
                            + with_key(p, k));
                        lemma_with_key_push(left@, x, k);
                        assert(left@.push(x) =~= l);
                        lemma_with_key_add(seq![x], p, k);
                        lemma_with_key_push(Seq::<Keyed<T>>::empty(), x, k);
                        lemma_with_key_none(Seq::<Keyed<T>>::empty(), k);
                        assert(Seq::<Keyed<T>>::empty().push(x) =~= seq![x]);
                        if x.key == k {
                            assert(with_key(seq![x], k) =~= seq![x]);
                            assert(r.len() > 0 ==> r.last().key < k);
                            lemma_with_key_none(r, k);
                            assert(with_key(left@, k).push(x) + with_key(r, k) + with_key(p, k)
                                =~= with_key(left@, k) + with_key(r, k) + (seq![x] + with_key(
                                p,
                                k,
                            )));
                        } else {
                            assert(with_key(seq![x], k) + with_key(p, k) =~= with_key(p, k));
                        }
                    }
                    vstd::seq_lib::lemma_multiset_commutative(left@ + seq![x] + r, p);
                    vstd::seq_lib::lemma_multiset_commutative(left@ + seq![x], r);
                    vstd::seq_lib::lemma_multiset_commutative(left@, seq![x]);
                    vstd::seq_lib::lemma_multiset_commutative(left@ + r, seq![x] + p);
                    vstd::seq_lib::lemma_multiset_commutative(left@, r);
                    vstd::seq_lib::lemma_multiset_commutative(seq![x], p);
                    assert(l + r + p =~= left@ + seq![x] + r + p);
                    assert((left@ + r + (seq![x] + p)).to_multiset() =~= (l + r + p).to_multiset());
                    assert(left@ + right@ + placed =~= left@ + r + (seq![x] + p));
                }
            }
        }
    }
    proof {
        assert(left@ + right@ + placed =~= placed);
        assert forall|k: u64| #[trigger] with_key(placed, k) == with_key(l0 + r0, k) by {
            lemma_with_key_add(l0, r0, k);
            assert(with_key(l0, k) + with_key(r0, k) == with_key(left@, k) + with_key(right@, k)
                + with_key(placed, k));
            lemma_with_key_none(left@, k);
            lemma_with_key_none(right@, k);
            assert(with_key(left@, k) + with_key(right@, k) + with_key(placed, k) =~= with_key(
                placed,
                k,
            ));
        }
    }
    let result = reversed(out);
    assert(result@ =~= placed);
    result
}

/// Sorts stably by key.
pub fn stable_sort<T>(items: Vec<Keyed<T>>) -> (r: Vec<Keyed<T>>)
    ensures
        sorted_from(items@, r@),
        r@.to_multiset() == items@.to_multiset(),
    decreases items@.len(),
{
    let n: usize = items.len();
    if n <= 1 {
        return items;
    }
    let ghost all = items@;
    let mut front = items;
    let back = front.split_off(n / 2);
    let ghost a = front@;
    let ghost b = back@;
    assert(all =~= a + b);
    let left = stable_sort(front);
    let right = stable_sort(back);
    let r = merge(left, right);
    proof {
        assert forall|k: u64| #[trigger] with_key(r@, k) == with_key(all, k) by {
            lemma_with_key_add(left@, right@, k);
            lemma_with_key_add(a, b, k);
            assert(with_key(left@, k) == with_key(a, k));
            assert(with_key(right@, k) == with_key(b, k));
            assert(with_key(r@, k) == with_key(left@ + right@, k));
        }
        vstd::seq_lib::lemma_multiset_commutative(left@, right@);
        vstd::seq_lib::lemma_multiset_commutative(a, b);
    }
    r
}

/// Sorting loses and adds nothing.
pub proof fn lemma_same_length<T>(s: Seq<Keyed<T>>, r: Seq<Keyed<T>>)
    requires
        s.to_multiset() == r.to_multiset(),
    ensures
        s.len() == r.len(),
{
    s.to_multiset_ensures();
    r.to_multiset_ensures();
}

proof fn lemma_last_with_key<T>(s: Seq<Keyed<T>>)
    requires
        s.len() > 0,
    ensures
        with_key(s, s.last().key).len() > 0,
        with_key(s, s.last().key).last() == s.last(),
        with_key(s, s.last().key).drop_last() == with_key(s.drop_last(), s.last().key),
{
    assert(s.drop_last().push(s.last()) =~= s);
    lemma_with_key_push(s.drop_last(), s.last(), s.last().key);
    assert(with_key(s.drop_last(), s.last().key).push(s.last()).drop_last() =~= with_key(
        s.drop_last(),
        s.last().key,
    ));
}

proof fn lemma_with_key_origin<T>(s: Seq<Keyed<T>>, k: u64)
    requires
        with_key(s, k).len() > 0,
    ensures
        exists|i: int| 0 <= i < s.len() && (#[trigger] s[i]).key == k,
{
    if forall|i: int| 0 <= i < s.len() ==> (#[trigger] s[i]).key != k {
        lemma_with_key_none(s, k);
    }
}

/// A list has one stable sorting only.
pub proof fn law_stable_sort_is_unique<T>(s: Seq<Keyed<T>>, a: Seq<Keyed<T>>, b: Seq<Keyed<T>>)
    requires
        sorted_from(s, a),
        sorted_from(s, b),
    ensures
        a == b,
{
    assert forall|k: u64| #[trigger] with_key(a, k) == with_key(b, k) by {
        assert(with_key(a, k) == with_key(s, k));
        assert(with_key(b, k) == with_key(s, k));
    }
    lemma_same_groups_same_list(a, b);
}

proof fn lemma_same_groups_same_list<T>(a: Seq<Keyed<T>>, b: Seq<Keyed<T>>)
    requires
        in_order(a),
        in_order(b),
        forall|k: u64| #[trigger] with_key(a, k) == with_key(b, k),
    ensures
        a == b,
    decreases a.len(),
{
    if a.len() == 0 {
        if b.len() > 0 {
            lemma_last_with_key(b);
            lemma_with_key_none(a, b.last().key);
            assert(with_key(a, b.last().key) == with_key(b, b.last().key));
        }
        assert(a =~= b);
    } else {
        let ka = a.last().key;
        lemma_last_with_key(a);
        assert(with_key(a, ka) == with_key(b, ka));
        lemma_with_key_origin(b, ka);
        let i = choose|i: int| 0 <= i < b.len() && (#[trigger] b[i]).key == ka;
        let kb = b.last().key;
        assert(ka <= kb);
        lemma_last_with_key(b);
        assert(with_key(a, kb) == with_key(b, kb));
        lemma_with_key_origin(a, kb);
        let j = choose|j: int| 0 <= j < a.len() && (#[trigger] a[j]).key == kb;
        assert(kb <= ka);
        assert(a.last() == b.last());
        assert forall|k: u64| #[trigger] with_key(a.drop_last(), k) == with_key(
            b.drop_last(),
            k,
        ) by {
            assert(with_key(a, k) == with_key(b, k));
            lemma_with_key_push(a.drop_last(), a.last(), k);
            lemma_with_key_push(b.drop_last(), b.last(), k);
            assert(a.drop_last().push(a.last()) =~= a);
            assert(b.drop_last().push(b.last()) =~= b);
        }
        lemma_same_groups_same_list(a.drop_last(), b.drop_last());
        assert(a =~= a.drop_last().push(a.last()));
        assert(b =~= b.drop_last().push(b.last()));
    }
}

/// Every item of a sorted list comes from the list that was sorted.
pub proof fn lemma_sorted_member<T>(s: Seq<Keyed<T>>, r: Seq<Keyed<T>>, i: int)
    requires
        sorted_from(s, r),
        0 <= i < r.len(),
    ensures
        exists|j: int| 0 <= j < s.len() && #[trigger] s[j] == r[i],
{
    let k = r[i].key;
    let same = |x: Keyed<T>| x.key == k;
    r.lemma_filter_contains(same, i);
    assert(with_key(r, k) == with_key(s, k));
    assert(with_key(s, k).contains(r[i]));
    let m = choose|m: int| 0 <= m < with_key(s, k).len() && with_key(s, k)[m] == r[i];
    lemma_filtered_origin(s, k, m);
}

proof fn lemma_filtered_origin<T>(s: Seq<Keyed<T>>, k: u64, m: int)
    requires
        0 <= m < with_key(s, k).len(),
    ensures
        exists|j: int| 0 <= j < s.len() && #[trigger] s[j] == with_key(s, k)[m],
    decreases s.len(),
{
    reveal(Seq::filter);
    if s.len() > 0 {
        let before = with_key(s.drop_last(), k);
        if m < before.len() {
            lemma_filtered_origin(s.drop_last(), k, m);
            let j = choose|j: int|
                0 <= j < s.drop_last().len() && #[trigger] s.drop_last()[j] == before[m];
            assert(s[j] == with_key(s, k)[m]);
        } else {
            assert(s[s.len() - 1] == with_key(s, k)[m]);
        }
    }
}

/// The items rise from place to place.
pub open spec fn rising(s: Seq<Keyed<usize>>) -> bool {
    forall|i: int, j: int| 0 <= i < j < s.len() ==> s[i].item < s[j].item
}

proof fn lemma_filtered_rises(s: Seq<Keyed<usize>>, k: u64)
    requires
        rising(s),
    ensures
        rising(with_key(s, k)),
    decreases s.len(),
{
    reveal(Seq::filter);
    if s.len() > 0 {
        let before = with_key(s.drop_last(), k);
        lemma_filtered_rises(s.drop_last(), k);
        assert forall|i: int| 0 <= i < before.len() implies (#[trigger] before[i]).item
            < s.last().item by {
            lemma_filtered_origin(s.drop_last(), k, i);
            let j = choose|j: int|
                0 <= j < s.drop_last().len() && #[trigger] s.drop_last()[j] == before[i];
            assert(s[j] == before[i]);
        }
    }
}

proof fn lemma_filter_keeps_order<T>(s: Seq<Keyed<T>>, i: int, j: int)
    requires
        0 <= i < j < s.len(),
        s[i].key == s[j].key,
    ensures
        exists|a: int, b: int|
            0 <= a < b < with_key(s, s[i].key).len() && #[trigger] with_key(s, s[i].key)[a] == s[i]
                && #[trigger] with_key(s, s[i].key)[b] == s[j],
    decreases s.len(),
{
    let k = s[i].key;
    let front = s.drop_last();
    let before = with_key(front, k);
    assert(front.push(s.last()) =~= s);
    lemma_with_key_push(front, s.last(), k);
    if j == s.len() - 1 {
        let same = |x: Keyed<T>| x.key == k;
        front.lemma_filter_contains(same, i);
        assert(before.contains(front[i]));
        let a = choose|a: int| 0 <= a < before.len() && before[a] == front[i];
        assert(with_key(s, k)[a] == s[i]);
        assert(with_key(s, k)[before.len() as int] == s[j]);
    } else {
        lemma_filter_keeps_order(front, i, j);
        let (a, b) = choose|a: int, b: int|
            0 <= a < b < before.len() && #[trigger] before[a] == front[i] && #[trigger] before[b]
                == front[j];
        assert(with_key(s, k)[a] == s[i]);
        assert(with_key(s, k)[b] == s[j]);
    }
}

/// Where the items rise in a list, equal keys keep them rising in its stable
/// sorting.
pub proof fn lemma_sorted_places(s: Seq<Keyed<usize>>, r: Seq<Keyed<usize>>, i: int, j: int)
    requires
        sorted_from(s, r),
        rising(s),
        0 <= i < j < r.len(),
    ensures
        r[i].key < r[j].key || (r[i].key == r[j].key && r[i].item < r[j].item),
{
    if r[i].key == r[j].key {
        let k = r[i].key;
        lemma_filter_keeps_order(r, i, j);
        assert(with_key(r, k) == with_key(s, k));
        lemma_filtered_rises(s, k);
    }
}

} // verus!
