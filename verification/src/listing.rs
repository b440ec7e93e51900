//! Lists of interface identifiers: their views, and the removal of
//! repetitions.

use vstd::prelude::*;

verus! {

/// What a list of names says, name by name.
pub open spec fn names_view(names: Seq<String>) -> Seq<Seq<char>> {
    Seq::new(names.len(), |i: int| names[i]@)
}

/// What a table of names by index says.
pub open spec fn index_view(table: Map<usize, String>) -> Map<usize, Seq<char>> {
    Map::new(|index: usize| table.contains_key(index), |index: usize| table[index]@)
}

/// The names of `names` without repetition, each at the place of its first
/// occurrence.
pub open spec fn distinct_names(names: Seq<Seq<char>>) -> Seq<Seq<char>>
    decreases names.len(),
{
    if names.len() == 0 {
        Seq::empty()
    } else {
        let front = distinct_names(names.drop_last());
        if front.contains(names.last()) {
            front
        } else {
            front.push(names.last())
        }
    }
}

fn contains_name(list: &Vec<String>, name: &String) -> (r: bool)
    ensures
        r == names_view(list@).contains(name@),
{
    let mut i: usize = 0;
    while i < list.len()
        invariant
            i <= list.len(),
            forall|j: int| 0 <= j < i ==> names_view(list@)[j] != name@,
        decreases list.len() - i,
    {
        if list[i] == *name {
            assert(names_view(list@)[i as int] == name@);
            return true;
        }
        i = i + 1;
    }
    false
}

/// The names of a list, each once, in the order in which they first occur.
pub fn distinct(names: &Vec<String>) -> (r: Vec<String>)
    ensures
        names_view(r@) == distinct_names(names_view(names@)),
{
    let mut out: Vec<String> = Vec::new();
    let mut i: usize = 0;
    assert(names_view(names@).take(0) =~= Seq::<Seq<char>>::empty());
    assert(names_view(out@) =~= Seq::<Seq<char>>::empty());
    while i < names.len()
        invariant
            i <= names.len(),
            names_view(out@) == distinct_names(names_view(names@).take(i as int)),
        decreases names.len() - i,
    {
        let ghost seen = names_view(names@).take(i as int);
        let ghost next = names_view(names@).take(i as int + 1);
        let ghost before = names_view(out@);
        proof {
            assert(next.drop_last() =~= seen);
            assert(next.last() == names@[i as int]@);
        }
        if !contains_name(&out, &names[i]) {
            out.push(names[i].clone());
            assert(names_view(out@) =~= before.push(names@[i as int]@));
        }
        i = i + 1;
    }
    assert(names_view(names@).take(i as int) =~= names_view(names@));
    out
}

/// The list of distinct names holds exactly the names of the list it was
/// made from, and none of them twice.
pub proof fn lemma_distinct_names_cover(names: Seq<Seq<char>>)
    ensures
        distinct_names(names).no_duplicates(),
        forall|name: Seq<char>| distinct_names(names).contains(name) <==> names.contains(name),
    decreases names.len(),
{
    if names.len() > 0 {
        let front = names.drop_last();
        lemma_distinct_names_cover(front);
        let last = names.last();
        let kept = distinct_names(front);
        let all = distinct_names(names);
        assert forall|name: Seq<char>| all.contains(name) <==> names.contains(name) by {
            assert(kept.contains(name) <==> front.contains(name));
            if names.contains(name) {
                let i = choose|i: int| 0 <= i < names.len() && names[i] == name;
                if i < names.len() - 1 {
                    assert(front[i] == name);
                    assert(front.contains(name));
                    let j = choose|j: int| 0 <= j < kept.len() && kept[j] == name;
                    assert(all[j] == name);
                } else if kept.contains(last) {
                    let j = choose|j: int| 0 <= j < kept.len() && kept[j] == last;
                    assert(all[j] == name);
                } else {
                    assert(all[all.len() - 1] == name);
                }
            }
            if all.contains(name) {
                let j = choose|j: int| 0 <= j < all.len() && all[j] == name;
                if j < kept.len() {
                    assert(kept[j] == name);
                    assert(kept.contains(name));
                    let i = choose|i: int| 0 <= i < front.len() && front[i] == name;
                    assert(names[i] == name);
                } else {
                    assert(names[names.len() - 1] == name);
                }
            }
        }
        if !kept.contains(last) {
            assert forall|i: int, j: int|
                0 <= i < all.len() && 0 <= j < all.len() && i != j implies all[i] != all[j] by {
                if i < kept.len() && j < kept.len() {
                    assert(kept[i] != kept[j]);
                } else if i < kept.len() {
                    assert(kept[i] == all[i]);
                    assert(kept.contains(all[i]));
                } else {
                    assert(kept[j] == all[j]);
                    assert(kept.contains(all[j]));
                }
            }
        }
    }
}

/// Listing the interfaces of two snapshots that name the same interfaces
/// gives the same set of identifiers, however the snapshots order or
/// repeat them: as a set, the listing does not change while no interface
/// is added or removed.
pub proof fn lemma_interface_list_idempotent(first: Seq<Seq<char>>, second: Seq<Seq<char>>)
    requires
        first.to_set() == second.to_set(),
    ensures
        distinct_names(first).to_set() == distinct_names(second).to_set(),
{
    lemma_distinct_names_cover(first);
    lemma_distinct_names_cover(second);
    let a = distinct_names(first).to_set();
    let b = distinct_names(second).to_set();
    assert forall|name: Seq<char>| a.contains(name) == b.contains(name) by {
        assert(first.to_set().contains(name) == first.contains(name));
        assert(second.to_set().contains(name) == second.contains(name));
    }
    assert(a =~= b);
}

} // verus!
