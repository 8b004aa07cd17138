//! Tables keyed by name: sequences of name/value pairs in which the first
//! entry under a name is the one that counts.

use vstd::prelude::*;
use vstd::string::StringExecFns;

verus! {

/// Index of the first occurrence of `name` in `names`, or their number if there is none.
pub open spec fn position_of(names: Seq<Seq<char>>, name: Seq<char>) -> int
    decreases names.len(),
{
    if names.len() == 0 {
        0
    } else if names[0] == name {
        0
    } else {
        1 + position_of(names.drop_first(), name)
    }
}

/// The names of a table, in order.
pub open spec fn keys<V>(entries: Seq<(Seq<char>, V)>) -> Seq<Seq<char>> {
    Seq::new(entries.len(), |i: int| entries[i].0)
}

/// Index of the first entry under `name`, or the number of entries.
pub open spec fn find<V>(entries: Seq<(Seq<char>, V)>, name: Seq<char>) -> int {
    position_of(keys(entries), name)
}

/// The value of the first entry under `name`.
pub open spec fn lookup<V>(entries: Seq<(Seq<char>, V)>, name: Seq<char>) -> Option<V> {
    let i = find(entries, name);
    if i < entries.len() {
        Some(entries[i].1)
    } else {
        None
    }
}

/// The table with `value` under `name`: in the place of the first entry under
/// that name, or at the end if there is none.
pub open spec fn upsert<V>(entries: Seq<(Seq<char>, V)>, name: Seq<char>, value: V) -> Seq<
    (Seq<char>, V),
> {
    let i = find(entries, name);
    if i < entries.len() {
        entries.update(i, (name, value))
    } else {
        entries.push((name, value))
    }
}

/// The table without its first entry under `name`.
pub open spec fn remove<V>(entries: Seq<(Seq<char>, V)>, name: Seq<char>) -> Seq<(Seq<char>, V)> {
    let i = find(entries, name);
    if i < entries.len() {
        entries.remove(i)
    } else {
        entries
    }
}

/// No name occurs twice.
pub open spec fn distinct<V>(entries: Seq<(Seq<char>, V)>) -> bool {
    forall|i: int, j: int|
        0 <= i < j < entries.len() ==> (#[trigger] entries[i]).0 != (#[trigger] entries[j]).0
}

/// The names of a vector of pairs, in order.
pub open spec fn key_views<T>(entries: Seq<(String, T)>) -> Seq<Seq<char>> {
    Seq::new(entries.len(), |i: int| entries[i].0@)
}

/// What `position_of` returns: the first index that holds the name.
pub proof fn lemma_position_of(names: Seq<Seq<char>>, name: Seq<char>)
    ensures
        0 <= position_of(names, name) <= names.len(),
        position_of(names, name) < names.len() ==> names[position_of(names, name)] == name,
        forall|j: int| 0 <= j < position_of(names, name) ==> names[j] != name,
    decreases names.len(),
{
    if names.len() > 0 && names[0] != name {
        let rest = names.drop_first();
        lemma_position_of(rest, name);
        assert forall|j: int| 0 <= j < position_of(names, name) implies names[j] != name by {
            if j > 0 {
                assert(rest[j - 1] == names[j]);
            }
        }
    }
}

/// An index that holds the name and has nothing equal before it is the position.
pub proof fn lemma_position_is(names: Seq<Seq<char>>, name: Seq<char>, i: int)
    requires
        0 <= i <= names.len(),
        i < names.len() ==> names[i] == name,
        forall|j: int| 0 <= j < i ==> names[j] != name,
    ensures
        position_of(names, name) == i,
{
    lemma_position_of(names, name);
}

/// What `find` returns: the first index under the name.
pub proof fn lemma_find<V>(entries: Seq<(Seq<char>, V)>, name: Seq<char>)
    ensures
        0 <= find(entries, name) <= entries.len(),
        find(entries, name) < entries.len() ==> entries[find(entries, name)].0 == name,
        forall|j: int| 0 <= j < find(entries, name) ==> entries[j].0 != name,
{
    lemma_position_of(keys(entries), name);
    assert forall|j: int| 0 <= j < find(entries, name) implies entries[j].0 != name by {
        assert(keys(entries)[j] == entries[j].0);
    }
}

/// An index that holds the name and has nothing equal before it is what `find` returns.
pub proof fn lemma_find_is<V>(entries: Seq<(Seq<char>, V)>, name: Seq<char>, i: int)
    requires
        0 <= i <= entries.len(),
        i < entries.len() ==> entries[i].0 == name,
        forall|j: int| 0 <= j < i ==> entries[j].0 != name,
    ensures
        find(entries, name) == i,
{
    lemma_position_is(keys(entries), name, i);
}

/// Setting a name keeps the names apart, stores the value, and leaves the
/// other names as they were.
pub proof fn lemma_upsert<V>(entries: Seq<(Seq<char>, V)>, name: Seq<char>, value: V)
    requires
        distinct(entries),
    ensures
        distinct(upsert(entries, name, value)),
        lookup(upsert(entries, name, value), name) == Some(value),
        forall|other: Seq<char>|
            other != name ==> #[trigger] lookup(upsert(entries, name, value), other) == lookup(
                entries,
                other,
            ),
{
    let after = upsert(entries, name, value);
    let i = find(entries, name);
    lemma_find(entries, name);
    lemma_find_is(after, name, i);
    assert forall|other: Seq<char>| other != name implies #[trigger] lookup(after, other)
        == lookup(entries, other) by {
        let k = find(entries, other);
        lemma_find(entries, other);
        if k < entries.len() {
            lemma_find_is(after, other, k);
        } else {
            lemma_find_is(after, other, after.len() as int);
        }
    }
}

/// Removing a name keeps the names apart, leaves nothing under the name, and
/// leaves the other names as they were.
pub proof fn lemma_remove<V>(entries: Seq<(Seq<char>, V)>, name: Seq<char>)
    requires
        distinct(entries),
    ensures
        distinct(remove(entries, name)),
        lookup(remove(entries, name), name) is None,
        forall|other: Seq<char>|
            other != name ==> #[trigger] lookup(remove(entries, name), other) == lookup(
                entries,
                other,
            ),
{
    let after = remove(entries, name);
    let i = find(entries, name);
    lemma_find(entries, name);
    assert forall|j: int| 0 <= j < after.len() implies (#[trigger] after[j]).0 != name by {
        if i < entries.len() {
            if j < i {
            } else {
                assert(after[j] == entries[j + 1]);
            }
        }
    }
    lemma_find_is(after, name, after.len() as int);
    assert forall|other: Seq<char>| other != name implies #[trigger] lookup(after, other)
        == lookup(entries, other) by {
        let k = find(entries, other);
        lemma_find(entries, other);
        if i < entries.len() {
            if k < i {
                lemma_find_is(after, other, k);
            } else if k < entries.len() {
                assert forall|j: int| 0 <= j < k - 1 implies after[j].0 != other by {
                    if j >= i {
                        assert(after[j] == entries[j + 1]);
                    }
                }
                lemma_find_is(after, other, k - 1);
            } else {
                assert forall|j: int| 0 <= j < after.len() implies after[j].0 != other by {
                    if j >= i {
                        assert(after[j] == entries[j + 1]);
                    }
                }
                lemma_find_is(after, other, after.len() as int);
            }
        }
    }
}

/// The content of a vector of pairs whose values stand for themselves.
pub open spec fn view_of<T>(entries: Seq<(String, T)>) -> Seq<(Seq<char>, T)> {
    Seq::new(entries.len(), |i: int| (entries[i].0@, entries[i].1))
}

/// The names of a vector of pairs are the names of its content.
pub proof fn lemma_view_of_keys<T>(entries: Seq<(String, T)>)
    ensures
        keys(view_of(entries)) == key_views(entries),
{
    assert(keys(view_of(entries)) =~= key_views(entries));
}

/// Index of the first entry of `entries` under `name`, or their number.
pub fn position<T>(entries: &Vec<(String, T)>, name: &str) -> (r: usize)
    ensures
        r == position_of(key_views(entries@), name@),
        r <= entries.len(),
        r < entries.len() ==> entries[r as int].0@ == name@,
{
    let wanted = String::from_str(name);
    let mut i: usize = 0;
    while i < entries.len()
        invariant
            i <= entries.len(),
            wanted@ == name@,
            forall|j: int| 0 <= j < i ==> key_views(entries@)[j] != name@,
        decreases entries.len() - i,
    {
        if entries[i].0 == wanted {
            proof {
                lemma_position_is(key_views(entries@), name@, i as int);
            }
            return i;
        }
        i += 1;
    }
    proof {
        lemma_position_is(key_views(entries@), name@, i as int);
    }
    i
}

/// Stores `value` under `name`: in the place of the entry under that name, or
/// at the end if there is none.
pub fn put<T>(entries: &mut Vec<(String, T)>, name: String, value: T)
    ensures
        view_of(final(entries)@) == upsert(view_of(old(entries)@), name@, value),
{
    proof {
        lemma_view_of_keys(entries@);
    }
    let i = position(entries, name.as_str());
    if i < entries.len() {
        entries.set(i, (name, value));
        proof {
            assert(view_of(entries@) =~= view_of(old(entries)@).update(i as int, (name@, value)));
        }
    } else {
        entries.push((name, value));
        proof {
            assert(view_of(entries@) =~= view_of(old(entries)@).push((name@, value)));
        }
    }
}

/// Removes the first entry under `name`, if there is one.
pub fn take_out<T>(entries: &mut Vec<(String, T)>, name: &str)
    ensures
        view_of(final(entries)@) == remove(view_of(old(entries)@), name@),
{
    proof {
        lemma_view_of_keys(entries@);
    }
    let i = position(entries, name);
    if i < entries.len() {
        entries.remove(i);
        proof {
            assert(view_of(entries@) =~= view_of(old(entries)@).remove(i as int));
        }
    }
}

} // verus!
