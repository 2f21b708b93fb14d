//! Ordered association lists keyed by text.
//!
//! The engine keeps its clusters, and the keys of each cluster, in the order
//! in which they were first written. These functions say what it means to
//! look a name up in such a list, to bind it and to unbind it. The first pair
//! that carries a name is the one that counts; in a list without repeated
//! names it is the only one.

use vstd::prelude::*;

verus! {

/// The text of a cluster name or of a key.
pub type Name = Seq<char>;

/// `i` is the place of the first pair of `list` that carries `name`.
pub open spec fn first_at<V>(list: Seq<(Name, V)>, name: Name, i: int) -> bool {
    &&& 0 <= i < list.len()
    &&& list[i].0 == name
    &&& forall|j: int| 0 <= j < i ==> (#[trigger] list[j]).0 != name
}

/// Some pair of `list` carries `name`.
pub open spec fn binds<V>(list: Seq<(Name, V)>, name: Name) -> bool {
    exists|i: int| first_at(list, name, i)
}

/// The place of the first pair that carries `name`, where there is one.
pub open spec fn slot_of<V>(list: Seq<(Name, V)>, name: Name) -> int {
    choose|i: int| first_at(list, name, i)
}

/// What `name` is bound to.
pub open spec fn find<V>(list: Seq<(Name, V)>, name: Name) -> Option<V> {
    if binds(list, name) {
        Some(list[slot_of(list, name)].1)
    } else {
        None
    }
}

/// `list` with `name` bound to `value`: in place where the name was bound
/// already, at the end where it was not.
pub open spec fn put<V>(list: Seq<(Name, V)>, name: Name, value: V) -> Seq<(Name, V)> {
    if binds(list, name) {
        list.update(slot_of(list, name), (name, value))
    } else {
        list.push((name, value))
    }
}

/// `list` without the first pair that carries `name`.
pub open spec fn without<V>(list: Seq<(Name, V)>, name: Name) -> Seq<(Name, V)> {
    if binds(list, name) {
        list.remove(slot_of(list, name))
    } else {
        list
    }
}

/// The names of `list`, in its order.
pub open spec fn names_of<V>(list: Seq<(Name, V)>) -> Seq<Name> {
    Seq::new(list.len(), |i: int| list[i].0)
}

/// No name occurs twice in `list`.
pub open spec fn distinct<V>(list: Seq<(Name, V)>) -> bool {
    forall|i: int, j: int|
        0 <= i < j < list.len() ==> (#[trigger] list[i]).0 != (#[trigger] list[j]).0
}

/// A name has at most one first place.
pub proof fn lemma_first_at_unique<V>(list: Seq<(Name, V)>, name: Name, i: int, j: int)
    requires
        first_at(list, name, i),
        first_at(list, name, j),
    ensures
        i == j,
{
    if i < j {
        assert(list[i].0 != name);
    } else if j < i {
        assert(list[j].0 != name);
    }
}

/// Where `i` is the first place of `name`, lookups go there.
pub proof fn lemma_found<V>(list: Seq<(Name, V)>, name: Name, i: int)
    requires
        first_at(list, name, i),
    ensures
        binds(list, name),
        slot_of(list, name) == i,
        find(list, name) == Some(list[i].1),
{
    lemma_first_at_unique(list, name, i, slot_of(list, name));
}

/// A list in which no pair carries `name` does not have it.
pub proof fn lemma_missing<V>(list: Seq<(Name, V)>, name: Name)
    requires
        forall|j: int| 0 <= j < list.len() ==> (#[trigger] list[j]).0 != name,
    ensures
        !binds(list, name),
        find(list, name) is None,
{
    if binds(list, name) {
        let i = slot_of(list, name);
        assert(list[i].0 == name);
    }
}

/// A name that some pair carries has a first place at or before that pair.
pub proof fn lemma_occurs<V>(list: Seq<(Name, V)>, name: Name, i: int)
    requires
        0 <= i < list.len(),
        list[i].0 == name,
    ensures
        binds(list, name),
        0 <= slot_of(list, name) <= i,
    decreases i,
{
    if forall|j: int| 0 <= j < i ==> (#[trigger] list[j]).0 != name {
        lemma_found(list, name, i);
    } else {
        let j = choose|j: int| 0 <= j < i && (#[trigger] list[j]).0 == name;
        lemma_occurs(list, name, j);
    }
}

/// A name is bound to what was put under it.
pub proof fn lemma_find_put_same<V>(list: Seq<(Name, V)>, name: Name, value: V)
    ensures
        find(put(list, name, value), name) == Some(value),
{
    if binds(list, name) {
        let i = slot_of(list, name);
        let after = list.update(i, (name, value));
        assert forall|j: int| 0 <= j < i implies (#[trigger] after[j]).0 != name by {
            assert(list[j].0 != name);
        }
        lemma_found(after, name, i);
    } else {
        let after = list.push((name, value));
        assert forall|j: int| 0 <= j < list.len() implies (#[trigger] after[j]).0 != name by {
            if list[j].0 == name {
                lemma_occurs(list, name, j);
            }
        }
        lemma_found(after, name, list.len() as int);
    }
}

/// Putting under one name leaves every other name bound as it was.
pub proof fn lemma_find_put_other<V>(list: Seq<(Name, V)>, name: Name, value: V, other: Name)
    requires
        other != name,
    ensures
        find(put(list, name, value), other) == find(list, other),
{
    let after = put(list, name, value);
    if binds(list, other) {
        let k = slot_of(list, other);
        assert(after[k] == list[k]);
        assert forall|j: int| 0 <= j < k implies (#[trigger] after[j]).0 != other by {
            assert(list[j].0 != other);
        }
        lemma_found(after, other, k);
    } else {
        assert forall|j: int| 0 <= j < after.len() implies (#[trigger] after[j]).0 != other by {
            if j < list.len() && list[j].0 == other {
                lemma_occurs(list, other, j);
            }
        }
        lemma_missing(after, other);
    }
}

/// Putting keeps a list free of repeated names.
pub proof fn lemma_put_distinct<V>(list: Seq<(Name, V)>, name: Name, value: V)
    requires
        distinct(list),
    ensures
        distinct(put(list, name, value)),
{
    let after = put(list, name, value);
    if binds(list, name) {
        let k = slot_of(list, name);
        assert forall|i: int, j: int| 0 <= i < j < after.len() implies (#[trigger] after[i]).0 != (
        #[trigger] after[j]).0 by {
            assert(list[i].0 != list[j].0);
            assert(list[k].0 == name);
        }
    } else {
        assert forall|i: int, j: int| 0 <= i < j < after.len() implies (#[trigger] after[i]).0 != (
        #[trigger] after[j]).0 by {
            if j == list.len() {
                if list[i].0 == name {
                    lemma_occurs(list, name, i);
                }
            } else {
                assert(list[i].0 != list[j].0);
            }
        }
    }
}

/// In a list without repeated names, a name that was taken out is gone.
pub proof fn lemma_find_without_same<V>(list: Seq<(Name, V)>, name: Name)
    requires
        distinct(list),
    ensures
        find(without(list, name), name) is None,
{
    let after = without(list, name);
    if binds(list, name) {
        let k = slot_of(list, name);
        assert forall|j: int| 0 <= j < after.len() implies (#[trigger] after[j]).0 != name by {
            if j < k {
                assert(after[j] == list[j]);
                assert(list[j].0 != list[k].0);
            } else {
                assert(after[j] == list[j + 1]);
                assert(list[k].0 != list[j + 1].0);
            }
        }
        lemma_missing(after, name);
    }
}

/// Taking one name out leaves every other name bound as it was.
pub proof fn lemma_find_without_other<V>(list: Seq<(Name, V)>, name: Name, other: Name)
    requires
        other != name,
    ensures
        find(without(list, name), other) == find(list, other),
{
    let after = without(list, name);
    if binds(list, name) {
        let k = slot_of(list, name);
        if binds(list, other) {
            let m = slot_of(list, other);
            let place = if m < k {
                m
            } else {
                m - 1
            };
            assert(after[place] == list[m]);
            assert forall|j: int| 0 <= j < place implies (#[trigger] after[j]).0 != other by {
                if j < k {
                    assert(after[j] == list[j]);
                    assert(list[j].0 != other);
                } else {
                    assert(after[j] == list[j + 1]);
                    assert(list[j + 1].0 != other);
                }
            }
            lemma_found(after, other, place);
        } else {
            assert forall|j: int| 0 <= j < after.len() implies (#[trigger] after[j]).0 != other by {
                let origin = if j < k {
                    j
                } else {
                    j + 1
                };
                assert(after[j] == list[origin]);
                if list[origin].0 == other {
                    lemma_occurs(list, other, origin);
                }
            }
            lemma_missing(after, other);
        }
    }
}

/// Taking a name out keeps a list free of repeated names.
pub proof fn lemma_without_distinct<V>(list: Seq<(Name, V)>, name: Name)
    requires
        distinct(list),
    ensures
        distinct(without(list, name)),
{
    let after = without(list, name);
    if binds(list, name) {
        let k = slot_of(list, name);
        assert forall|i: int, j: int| 0 <= i < j < after.len() implies (#[trigger] after[i]).0 != (
        #[trigger] after[j]).0 by {
            let oi = if i < k {
                i
            } else {
                i + 1
            };
            let oj = if j < k {
                j
            } else {
                j + 1
            };
            assert(after[i] == list[oi]);
            assert(after[j] == list[oj]);
            assert(list[oi].0 != list[oj].0);
        }
    }
}

} // verus!
