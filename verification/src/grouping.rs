//! Grouping a list by name.

use vstd::prelude::*;

use crate::text;
use crate::text::is_before;

verus! {

/// A name and the places at which it stands in a list.
pub struct Group {
    pub name: String,
    pub members: Vec<usize>,
}

/// The places at which `name` stands in `names`, from front to back.
pub open spec fn places(names: Seq<Seq<char>>, name: Seq<char>) -> Seq<usize>
    decreases names.len(),
{
    if names.len() == 0 {
        seq![]
    } else {
        let before = places(names.drop_last(), name);
        if names.last() == name {
            before.push((names.len() - 1) as usize)
        } else {
            before
        }
    }
}

/// The names of the groups come one before the other.
pub open spec fn names_rise(groups: Seq<Group>) -> bool {
    forall|i: int, j: int|
        0 <= i < j < groups.len() ==> text::before(groups[i].name@, groups[j].name@)
}

/// `groups` is `names` grouped: one group for each name, in the order of the
/// names, with all places of the name.
pub open spec fn grouped(names: Seq<Seq<char>>, groups: Seq<Group>) -> bool {
    &&& names_rise(groups)
    &&& forall|g: int|
        0 <= g < groups.len() ==> (#[trigger] groups[g]).members@ == places(names, groups[g].name@)
    &&& forall|g: int| 0 <= g < groups.len() ==> (#[trigger] groups[g]).members@.len() > 0
    &&& forall|i: int| 0 <= i < names.len() ==> has_group(groups, #[trigger] names[i])
}

pub open spec fn has_group(groups: Seq<Group>, name: Seq<char>) -> bool {
    exists|g: int| 0 <= g < groups.len() && (#[trigger] groups[g]).name@ == name
}

/// Where `name` stands, or belongs, among the groups: all groups before that
/// place come before `name`, and none from there on does.
fn find(groups: &Vec<Group>, name: &str) -> (r: usize)
    requires
        names_rise(groups@),
    ensures
        r <= groups@.len(),
        forall|g: int| 0 <= g < r ==> text::before((#[trigger] groups@[g]).name@, name@),
        forall|g: int|
            r <= g < groups@.len() ==> !text::before((#[trigger] groups@[g]).name@, name@),
{
    let mut low: usize = 0;
    let mut high: usize = groups.len();
    while low < high
        invariant
            low <= high <= groups@.len(),
            names_rise(groups@),
            forall|g: int| 0 <= g < low ==> text::before((#[trigger] groups@[g]).name@, name@),
            forall|g: int|
                high <= g < groups@.len() ==> !text::before((#[trigger] groups@[g]).name@, name@),
        decreases high - low,
    {
        let mid: usize = low + (high - low) / 2;
        if is_before(groups[mid].name.as_str(), name) {
            proof {
                assert forall|g: int| 0 <= g < mid + 1 implies text::before(
                    (#[trigger] groups@[g]).name@,
                    name@,
                ) by {
                    if g < mid {
                        text::lemma_before_is_strict(
                            groups@[g].name@,
                            groups@[mid as int].name@,
                            name@,
                        );
                    }
                }
            }
            low = mid + 1;
        } else {
            proof {
                assert forall|g: int| mid <= g < groups@.len() implies !text::before(
                    (#[trigger] groups@[g]).name@,
                    name@,
                ) by {
                    if mid < g {
                        text::lemma_before_is_strict(
                            groups@[mid as int].name@,
                            groups@[g].name@,
                            name@,
                        );
                    }
                }
            }
            high = mid;
        }
    }
    low
}

proof fn lemma_places_absent(names: Seq<Seq<char>>, name: Seq<char>)
    requires
        forall|i: int| 0 <= i < names.len() ==> #[trigger] names[i] != name,
    ensures
        places(names, name).len() == 0,
    decreases names.len(),
{
    if names.len() > 0 {
        assert(names.last() == names[names.len() - 1]);
        lemma_places_absent(names.drop_last(), name);
    }
}

/// Groups a list by name.
pub fn group_by_name(names: &Vec<String>) -> (r: Vec<Group>)
    ensures
        grouped(text::strings(names@), r@),
{
    let n: usize = names.len();
    let ghost all = text::strings(names@);
    let mut groups: Vec<Group> = Vec::new();
    let mut i: usize = 0;
    while i < n
        invariant
            n == names@.len(),
            i <= n,
            all == text::strings(names@),
            grouped(all.take(i as int), groups@),
        decreases n - i,
    {
        let name = names[i].as_str();
        let at: usize = find(&groups, name);
        let ghost seen = all.take(i as int);
        let ghost upto = all.take(i + 1);
        let ghost before = groups@;
        proof {
            assert(upto.drop_last() =~= seen);
            assert(upto.last() == name@);
        }
        let known: bool = at < groups.len() && groups[at].name.as_str().eq(name);
        if known {
            let mut group = groups.remove(at);
            group.members.push(i);
            groups.insert(at, group);
            proof {
                assert(groups@.len() == before.len());
                assert forall|g: int| 0 <= g < groups@.len() implies (#[trigger] groups@[g]).name@
                    == before[g].name@ by {}
                assert forall|g: int, h: int| 0 <= g < h < groups@.len() implies text::before(
                    groups@[g].name@,
                    groups@[h].name@,
                ) by {
                    assert(text::before(before[g].name@, before[h].name@));
                }
                assert forall|g: int| 0 <= g < groups@.len() implies (
                #[trigger] groups@[g]).members@ == places(upto, groups@[g].name@) by {
                    assert(before[g].members@ == places(seen, before[g].name@));
                    if g != at {
                        text::lemma_before_is_strict(name@, name@, name@);
                        if g < at {
                            assert(text::before(before[g].name@, before[at as int].name@));
                        } else {
                            assert(text::before(before[at as int].name@, before[g].name@));
                        }
                    }
                }
                assert forall|k: int| 0 <= k < upto.len() implies has_group(
                    groups@,
                    #[trigger] upto[k],
                ) by {
                    if k < i {
                        assert(upto[k] == seen[k]);
                        let g = choose|g: int|
                            0 <= g < before.len() && (#[trigger] before[g]).name@ == seen[k];
                        assert(groups@[g].name@ == upto[k]);
                    } else {
                        assert(groups@[at as int].name@ == upto[k]);
                    }
                }
            }
        } else {
            proof {
                assert forall|k: int| 0 <= k < seen.len() implies #[trigger] seen[k] != name@ by {
                    if seen[k] == name@ {
                        assert(has_group(before, seen[k]));
                        let g = choose|g: int|
                            0 <= g < before.len() && (#[trigger] before[g]).name@ == seen[k];
                        text::lemma_before_is_strict(name@, name@, name@);
                        if g > at {
                            assert(text::before(before[at as int].name@, before[g].name@));
                        }
                    }
                }
                lemma_places_absent(seen, name@);
            }
            let mut members: Vec<usize> = Vec::new();
            members.push(i);
            let group = Group { name: name.to_owned(), members };
            groups.insert(at, group);
            proof {
                assert(places(upto, name@) =~= seq![i]);
                assert(groups@ =~= before.insert(at as int, group));
                assert forall|g: int| 0 <= g < groups@.len() implies #[trigger] groups@[g] == (
                if g < at {
                    before[g]
                } else if g == at {
                    group
                } else {
                    before[g - 1]
                }) by {}
                assert forall|g: int, h: int| 0 <= g < h < groups@.len() implies text::before(
                    groups@[g].name@,
                    groups@[h].name@,
                ) by {
                    let a = if g < at {
                        g
                    } else {
                        g - 1
                    };
                    let b = if h < at {
                        h
                    } else {
                        h - 1
                    };
                    if g != at && h != at {
                        assert(text::before(before[a].name@, before[b].name@));
                    } else if h == at {
                        assert(text::before(before[g].name@, name@));
                    } else {
                        assert(!text::before(before[b].name@, name@));
                        text::lemma_before_is_total(before[b].name@, name@);
                        if before[b].name@ == name@ {
                            if b > at {
                                assert(text::before(before[at as int].name@, before[b].name@));
                            }
                        }
                    }
                }
                assert forall|g: int| 0 <= g < groups@.len() implies (
                #[trigger] groups@[g]).members@ == places(upto, groups@[g].name@) by {
                    if g != at {
                        let a = if g < at {
                            g
                        } else {
                            g - 1
                        };
                        assert(before[a].members@ == places(seen, before[a].name@));
                        assert(before[a].members@.len() > 0);
                        if before[a].name@ == name@ {
                            assert(places(seen, name@).len() > 0);
                        }
                    }
                }
                assert forall|g: int| 0 <= g < groups@.len() implies (
                #[trigger] groups@[g]).members@.len() > 0 by {
                    if g != at {
                        let a = if g < at {
                            g
                        } else {
                            g - 1
                        };
                        assert(before[a].members@.len() > 0);
                    }
                }
                assert forall|k: int| 0 <= k < upto.len() implies has_group(
                    groups@,
                    #[trigger] upto[k],
                ) by {
                    if k < i {
                        assert(upto[k] == seen[k]);
                        let g = choose|g: int|
                            0 <= g < before.len() && (#[trigger] before[g]).name@ == seen[k];
                        let h = if g < at {
                            g
                        } else {
                            g + 1
                        };
                        assert(groups@[h].name@ == upto[k]);
                    } else {
                        assert(groups@[at as int].name@ == upto[k]);
                    }
                }
            }
        }
        i = i + 1;
    }
    assert(all.take(n as int) =~= all);
    groups
}

/// The places of a name are places of the list, and hold the name.
pub proof fn lemma_places_hold(names: Seq<Seq<char>>, name: Seq<char>)
    requires
        names.len() <= usize::MAX,
    ensures
        forall|k: int|
            0 <= k < places(names, name).len() ==> (#[trigger] places(names, name)[k])
                < names.len() && names[places(names, name)[k] as int] == name,
    decreases names.len(),
{
    if names.len() > 0 {
        lemma_places_hold(names.drop_last(), name);
        let before = places(names.drop_last(), name);
        assert forall|k: int| 0 <= k < places(names, name).len() implies (
        #[trigger] places(names, name)[k]) < names.len() && names[places(names, name)[k] as int]
            == name by {
            if k < before.len() {
                assert(places(names, name)[k] == before[k]);
                assert(names.drop_last()[before[k] as int] == names[before[k] as int]);
            }
        }
    }
}

/// Every entry of the list belongs to exactly one group.
pub proof fn law_groups_partition(names: Seq<Seq<char>>, groups: Seq<Group>, i: int)
    requires
        names.len() <= usize::MAX,
        grouped(names, groups),
        0 <= i < names.len(),
    ensures
        exists|g: int| 0 <= g < groups.len() && (#[trigger] groups[g]).members@.contains(i as usize),
        forall|g: int, h: int|
            0 <= g < groups.len() && 0 <= h < groups.len() && (
            #[trigger] groups[g]).members@.contains(i as usize) && (
            #[trigger] groups[h]).members@.contains(i as usize) ==> g == h,
{
    assert(has_group(groups, names[i]));
    let g = choose|g: int| 0 <= g < groups.len() && (#[trigger] groups[g]).name@ == names[i];
    lemma_places_contain(names, i);
    assert(groups[g].members@.contains(i as usize));
    assert forall|g: int, h: int|
        0 <= g < groups.len() && 0 <= h < groups.len() && (#[trigger] groups[g]).members@.contains(
            i as usize,
        ) && (#[trigger] groups[h]).members@.contains(i as usize) implies g == h by {
        lemma_places_hold(names, groups[g].name@);
        lemma_places_hold(names, groups[h].name@);
        let a = choose|a: int|
            0 <= a < groups[g].members@.len() && groups[g].members@[a] == i as usize;
        let b = choose|b: int|
            0 <= b < groups[h].members@.len() && groups[h].members@[b] == i as usize;
        assert(names[places(names, groups[g].name@)[a] as int] == groups[g].name@);
        assert(names[places(names, groups[h].name@)[b] as int] == groups[h].name@);
        text::lemma_before_is_strict(names[i], names[i], names[i]);
        if g < h {
            assert(text::before(groups[g].name@, groups[h].name@));
        } else if h < g {
            assert(text::before(groups[h].name@, groups[g].name@));
        }
    }
}

proof fn lemma_places_contain(names: Seq<Seq<char>>, i: int)
    requires
        0 <= i < names.len() <= usize::MAX,
    ensures
        places(names, names[i]).contains(i as usize),
    decreases names.len(),
{
    let all = places(names, names[i]);
    if i == names.len() - 1 {
        assert(all.last() == i as usize);
    } else {
        lemma_places_contain(names.drop_last(), i);
        let before = places(names.drop_last(), names[i]);
        let k = choose|k: int| 0 <= k < before.len() && before[k] == i as usize;
        assert(all[k] == i as usize);
    }
}

} // verus!
