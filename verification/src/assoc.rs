use vstd::prelude::*;

verus! {

/// The mapping a name-keyed entry list denotes: later entries win, though the
/// store only ever holds one entry per name.
pub open spec fn assoc_map<T: View>(entries: Seq<(String, T)>) -> Map<Seq<char>, T::V>
    decreases entries.len(),
{
    if entries.len() == 0 {
        Map::empty()
    } else {
        assoc_map(entries.drop_last()).insert(entries.last().0@, entries.last().1@)
    }
}

/// No two entries share a name.
pub open spec fn unique_keys<T>(entries: Seq<(String, T)>) -> bool {
    forall|i: int, j: int|
        0 <= i < j < entries.len() ==> (#[trigger] entries[i]).0@ != (#[trigger] entries[j]).0@
}

/// A key is in the denoted map exactly when some entry carries it.
pub proof fn lemma_assoc_contains<T: View>(entries: Seq<(String, T)>, k: Seq<char>)
    ensures
        assoc_map(entries).contains_key(k) <==> exists|i: int|
            0 <= i < entries.len() && (#[trigger] entries[i]).0@ == k,
    decreases entries.len(),
{
    if entries.len() > 0 {
        lemma_assoc_contains(entries.drop_last(), k);
        let last: int = entries.len() - 1;
        if entries[last].0@ == k {
            assert(assoc_map(entries).contains_key(k));
        } else if assoc_map(entries).contains_key(k) {
            let i = choose|i: int|
                0 <= i < entries.drop_last().len() && (#[trigger] entries.drop_last()[i]).0@ == k;
            assert(entries[i].0@ == k);
        } else {
            assert forall|i: int| 0 <= i < entries.len() implies (#[trigger] entries[i]).0@ != k by {
                if i < last {
                    assert(entries.drop_last()[i].0@ == entries[i].0@);
                }
            }
        }
    }
}

/// With unique names, the entry at any index gives the map's value at its name.
pub proof fn lemma_assoc_index<T: View>(entries: Seq<(String, T)>, i: int)
    requires
        unique_keys(entries),
        0 <= i < entries.len(),
    ensures
        assoc_map(entries).contains_key(entries[i].0@),
        assoc_map(entries)[entries[i].0@] == entries[i].1@,
    decreases entries.len(),
{
    let last: int = entries.len() - 1;
    if i < last {
        assert(unique_keys(entries.drop_last())) by {
            assert forall|a: int, b: int| 0 <= a < b < entries.drop_last().len() implies (
            #[trigger] entries.drop_last()[a]).0@ != (#[trigger] entries.drop_last()[b]).0@ by {
                assert(entries[a].0@ != entries[b].0@);
            }
        }
        assert(entries.drop_last()[i] == entries[i]);
        lemma_assoc_index(entries.drop_last(), i);
        assert(entries[i].0@ != entries[last].0@);
    }
}

/// Appending a fresh entry denotes a map insertion.
pub proof fn lemma_assoc_push<T: View>(entries: Seq<(String, T)>, name: String, v: T)
    ensures
        assoc_map(entries.push((name, v))) == assoc_map(entries).insert(name@, v@),
        unique_keys(entries) && (forall|i: int|
            0 <= i < entries.len() ==> (#[trigger] entries[i]).0@ != name@) ==> unique_keys(
            entries.push((name, v)),
        ),
{
    let pushed = entries.push((name, v));
    assert(pushed.drop_last() =~= entries);
    assert(pushed.last() == (name, v));
    if unique_keys(entries) && (forall|i: int|
        0 <= i < entries.len() ==> (#[trigger] entries[i]).0@ != name@) {
        assert forall|a: int, b: int| 0 <= a < b < pushed.len() implies (#[trigger] pushed[a]).0@
            != (#[trigger] pushed[b]).0@ by {
            if b < pushed.len() - 1 {
                assert(entries[a].0@ != entries[b].0@);
            } else {
                assert(entries[a].0@ != name@);
            }
        }
    }
}

/// Removing the entry that carries a name denotes a map removal.
pub proof fn lemma_assoc_remove<T: View>(entries: Seq<(String, T)>, i: int)
    requires
        unique_keys(entries),
        0 <= i < entries.len(),
    ensures
        assoc_map(entries.remove(i)) == assoc_map(entries).remove(entries[i].0@),
        unique_keys(entries.remove(i)),
{
    let key = entries[i].0@;
    let rem = entries.remove(i);
    assert forall|a: int, b: int| 0 <= a < b < rem.len() implies (#[trigger] rem[a]).0@ != (
    #[trigger] rem[b]).0@ by {
        let a0: int = if a < i { a } else { a + 1 };
        let b0: int = if b < i { b } else { b + 1 };
        assert(rem[a] == entries[a0] && rem[b] == entries[b0]);
        assert(entries[a0].0@ != entries[b0].0@);
    }
    assert forall|k: Seq<char>| #[trigger] assoc_map(rem).contains_key(k) implies assoc_map(
        entries,
    ).remove(key).contains_key(k) && assoc_map(rem)[k] == assoc_map(entries).remove(key)[k] by {
        lemma_assoc_contains(rem, k);
        let j = choose|j: int| 0 <= j < rem.len() && (#[trigger] rem[j]).0@ == k;
        let j0: int = if j < i { j } else { j + 1 };
        assert(rem[j] == entries[j0]);
        assert(j0 != i);
        assert(k != key);
        lemma_assoc_index(rem, j);
        lemma_assoc_index(entries, j0);
    }
    assert forall|k: Seq<char>| #[trigger] assoc_map(entries).remove(key).contains_key(
        k,
    ) implies assoc_map(rem).contains_key(k) by {
        lemma_assoc_contains(entries, k);
        let j0 = choose|j0: int| 0 <= j0 < entries.len() && (#[trigger] entries[j0]).0@ == k;
        assert(j0 != i);
        let j: int = if j0 < i { j0 } else { j0 - 1 };
        assert(rem[j] == entries[j0]);
        lemma_assoc_contains(rem, k);
    }
    assert(assoc_map(rem) =~= assoc_map(entries).remove(key));
}

/// A name carried by no entry is not in the denoted map.
pub proof fn lemma_assoc_absent<T: View>(entries: Seq<(String, T)>, k: Seq<char>)
    requires
        forall|i: int| 0 <= i < entries.len() ==> (#[trigger] entries[i]).0@ != k,
    ensures
        !assoc_map(entries).contains_key(k),
{
    lemma_assoc_contains(entries, k);
}

} // verus!
