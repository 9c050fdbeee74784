//! Keyed record sequences.
//!
//! Each collection of the store is modelled as a sequence of records with a
//! key function. This module defines lookup, insert-or-replace and removal
//! on such sequences at the specification level, together with the lemmas
//! that relate them to the sequence operations the executable code performs.

use vstd::prelude::*;

verus! {

/// The first record in `s` whose key is `k`, if any.
pub open spec fn find_by<T, K>(s: Seq<T>, key: spec_fn(T) -> K, k: K) -> Option<T>
    decreases s.len(),
{
    if s.len() == 0 {
        None
    } else if key(s[0]) == k {
        Some(s[0])
    } else {
        find_by(s.drop_first(), key, k)
    }
}

/// Identity key, for sequences whose elements are their own keys.
pub open spec fn idkey<T>() -> spec_fn(T) -> T {
    |x: T| x
}

/// Whether the records of `s` have pairwise distinct keys.
pub open spec fn distinct_by<T, K>(s: Seq<T>, key: spec_fn(T) -> K) -> bool {
    forall|i: int, j: int| 0 <= i < j < s.len() ==> key(s[i]) != key(s[j])
}

/// Insert-or-replace: replaces the first record whose key equals `key(v)`
/// by `v`, or appends `v` if no record has that key.
pub open spec fn put_by<T, K>(s: Seq<T>, key: spec_fn(T) -> K, v: T) -> Seq<T>
    decreases s.len(),
{
    if s.len() == 0 {
        seq![v]
    } else if key(s[0]) == key(v) {
        seq![v] + s.drop_first()
    } else {
        seq![s[0]] + put_by(s.drop_first(), key, v)
    }
}

/// Removes the first record whose key is `k`, if any.
pub open spec fn remove_by<T, K>(s: Seq<T>, key: spec_fn(T) -> K, k: K) -> Seq<T>
    decreases s.len(),
{
    if s.len() == 0 {
        s
    } else if key(s[0]) == k {
        s.drop_first()
    } else {
        seq![s[0]] + remove_by(s.drop_first(), key, k)
    }
}

/// A successful lookup returns a record of `s` that bears the looked-up
/// key; a failed one means no record bears it.
pub proof fn lemma_find_by_props<T, K>(s: Seq<T>, key: spec_fn(T) -> K, k: K)
    ensures
        match find_by(s, key, k) {
            Some(v) => key(v) == k && s.contains(v),
            None => forall|j: int| 0 <= j < s.len() ==> key(s[j]) != k,
        },
    decreases s.len(),
{
    if s.len() != 0 && key(s[0]) != k {
        lemma_find_by_props(s.drop_first(), key, k);
        match find_by(s.drop_first(), key, k) {
            Some(v) => {
                assert(s.drop_first().contains(v));
                let i = choose|i: int|
                    0 <= i < s.drop_first().len() && s.drop_first()[i] == v;
                assert(s[i + 1] == v);
            },
            None => {
                assert forall|j: int| 0 <= j < s.len() implies key(s[j]) != k by {
                    if j > 0 {
                        assert(s.drop_first()[j - 1] == s[j]);
                    }
                }
            },
        }
    }
}

/// Lookup finds the first record whose key matches.
pub proof fn lemma_find_by_at<T, K>(s: Seq<T>, key: spec_fn(T) -> K, k: K, i: int)
    requires
        0 <= i < s.len(),
        key(s[i]) == k,
        forall|j: int| 0 <= j < i ==> key(s[j]) != k,
    ensures
        find_by(s, key, k) == Some(s[i]),
    decreases i,
{
    if i > 0 {
        assert forall|j: int| 0 <= j < i - 1 implies key(s.drop_first()[j]) != k by {
            assert(s.drop_first()[j] == s[j + 1]);
        }
        assert(s.drop_first()[i - 1] == s[i]);
        lemma_find_by_at(s.drop_first(), key, k, i - 1);
    }
}

/// When no record bears key `k`, lookup fails.
pub proof fn lemma_find_by_none<T, K>(s: Seq<T>, key: spec_fn(T) -> K, k: K)
    requires
        forall|j: int| 0 <= j < s.len() ==> key(s[j]) != k,
    ensures
        find_by(s, key, k) is None,
    decreases s.len(),
{
    if s.len() != 0 {
        assert forall|j: int| 0 <= j < s.drop_first().len() implies key(
            s.drop_first()[j],
        ) != k by {
            assert(s.drop_first()[j] == s[j + 1]);
        }
        lemma_find_by_none(s.drop_first(), key, k);
    }
}

/// How lookup behaves on an appended sequence.
pub proof fn lemma_find_by_push<T, K>(s: Seq<T>, key: spec_fn(T) -> K, v: T, k: K)
    ensures
        find_by(s.push(v), key, k) == if find_by(s, key, k) is Some {
            find_by(s, key, k)
        } else if key(v) == k {
            Some(v)
        } else {
            None
        },
    decreases s.len(),
{
    if s.len() == 0 {
        assert(s.push(v)[0] == v);
        if key(v) != k {
            assert(s.push(v).drop_first() =~= Seq::<T>::empty());
            assert(find_by(Seq::<T>::empty(), key, k) is None);
        }
    } else {
        assert(s.push(v)[0] == s[0]);
        assert(s.push(v).drop_first() =~= s.drop_first().push(v));
        lemma_find_by_push(s.drop_first(), key, v, k);
        if key(s[0]) == k {
            assert(find_by(s.push(v), key, k) == Some(s[0]));
            assert(find_by(s, key, k) == Some(s[0]));
        } else {
            assert(find_by(s.push(v), key, k) == find_by(s.drop_first().push(v), key, k));
            assert(find_by(s, key, k) == find_by(s.drop_first(), key, k));
        }
    }
}


/// How lookup behaves after the record at `i` is removed, when keys are
/// pairwise distinct.
pub proof fn lemma_find_by_remove<T, K>(s: Seq<T>, key: spec_fn(T) -> K, i: int, k: K)
    requires
        0 <= i < s.len(),
        distinct_by(s, key),
    ensures
        find_by(s.remove(i), key, k) == if k == key(s[i]) {
            None::<T>
        } else {
            find_by(s, key, k)
        },
{
    if k == key(s[i]) {
        assert forall|j: int| 0 <= j < s.remove(i).len() implies key(
            s.remove(i)[j],
        ) != k by {
            if j < i {
                assert(s.remove(i)[j] == s[j]);
            } else {
                assert(s.remove(i)[j] == s[j + 1]);
            }
        }
        lemma_find_by_none(s.remove(i), key, k);
    } else {
        lemma_find_by_props(s, key, k);
        match find_by(s, key, k) {
            Some(v) => {
                let l = choose|l: int| 0 <= l < s.len() && s[l] == v;
                lemma_find_by_first(s, key, k, l);
                if l < i {
                    assert(s.remove(i)[l] == s[l]);
                    assert forall|j: int| 0 <= j < l implies key(s.remove(i)[j]) != k by {
                        assert(s.remove(i)[j] == s[j]);
                    }
                    lemma_find_by_at(s.remove(i), key, k, l);
                } else {
                    assert(s.remove(i)[l - 1] == s[l]);
                    assert forall|j: int| 0 <= j < l - 1 implies key(
                        s.remove(i)[j],
                    ) != k by {
                        if j < i {
                            assert(s.remove(i)[j] == s[j]);
                        } else {
                            assert(s.remove(i)[j] == s[j + 1]);
                        }
                    }
                    lemma_find_by_at(s.remove(i), key, k, l - 1);
                }
            },
            None => {
                assert forall|j: int| 0 <= j < s.remove(i).len() implies key(
                    s.remove(i)[j],
                ) != k by {
                    if j < i {
                        assert(s.remove(i)[j] == s[j]);
                    } else {
                        assert(s.remove(i)[j] == s[j + 1]);
                    }
                }
                lemma_find_by_none(s.remove(i), key, k);
            },
        }
    }
}

/// In a sequence with pairwise distinct keys, a record that bears the
/// looked-up key has no earlier record with that key.
proof fn lemma_find_by_first<T, K>(s: Seq<T>, key: spec_fn(T) -> K, k: K, l: int)
    requires
        0 <= l < s.len(),
        key(s[l]) == k,
        distinct_by(s, key),
    ensures
        forall|j: int| 0 <= j < l ==> key(s[j]) != k,
{
}

/// Appending a record with a fresh key keeps keys pairwise distinct.
pub proof fn lemma_distinct_push<T, K>(s: Seq<T>, key: spec_fn(T) -> K, v: T)
    requires
        distinct_by(s, key),
        find_by(s, key, key(v)) is None,
    ensures
        distinct_by(s.push(v), key),
{
    lemma_find_by_props(s, key, key(v));
    assert forall|i: int, j: int|
        0 <= i < j < s.push(v).len() implies key(s.push(v)[i]) != key(
        s.push(v)[j],
    ) by {
        assert(s.push(v)[i] == s[i]);
        if j < s.len() {
            assert(s.push(v)[j] == s[j]);
        } else {
            assert(s.push(v)[j] == v);
        }
    }
}

/// Replacing a record by one with the same key keeps keys pairwise
/// distinct.
pub proof fn lemma_distinct_update<T, K>(s: Seq<T>, key: spec_fn(T) -> K, i: int, v: T)
    requires
        0 <= i < s.len(),
        key(s[i]) == key(v),
        distinct_by(s, key),
    ensures
        distinct_by(s.update(i, v), key),
{
}

/// Removing a record keeps keys pairwise distinct.
pub proof fn lemma_distinct_remove<T, K>(s: Seq<T>, key: spec_fn(T) -> K, i: int)
    requires
        0 <= i < s.len(),
        distinct_by(s, key),
    ensures
        distinct_by(s.remove(i), key),
{
    assert forall|a: int, b: int|
        0 <= a < b < s.remove(i).len() implies key(s.remove(i)[a]) != key(
        s.remove(i)[b],
    ) by {
        if a < i {
            assert(s.remove(i)[a] == s[a]);
        } else {
            assert(s.remove(i)[a] == s[a + 1]);
        }
        if b < i {
            assert(s.remove(i)[b] == s[b]);
        } else {
            assert(s.remove(i)[b] == s[b + 1]);
        }
    }
}

/// Insert-or-replace on a present key is an update at its first position.
pub proof fn lemma_put_by_update<T, K>(s: Seq<T>, key: spec_fn(T) -> K, v: T, i: int)
    requires
        0 <= i < s.len(),
        key(s[i]) == key(v),
        forall|j: int| 0 <= j < i ==> key(s[j]) != key(v),
    ensures
        put_by(s, key, v) == s.update(i, v),
    decreases i,
{
    if i == 0 {
        assert(put_by(s, key, v) =~= s.update(0, v));
    } else {
        assert forall|j: int| 0 <= j < i - 1 implies key(s.drop_first()[j]) != key(
            v,
        ) by {
            assert(s.drop_first()[j] == s[j + 1]);
        }
        assert(s.drop_first()[i - 1] == s[i]);
        lemma_put_by_update(s.drop_first(), key, v, i - 1);
        assert(put_by(s, key, v) =~= s.update(i, v));
    }
}

/// Insert-or-replace on an absent key is an append.
pub proof fn lemma_put_by_push<T, K>(s: Seq<T>, key: spec_fn(T) -> K, v: T)
    requires
        find_by(s, key, key(v)) is None,
    ensures
        put_by(s, key, v) == s.push(v),
    decreases s.len(),
{
    if s.len() == 0 {
        assert(put_by(s, key, v) =~= s.push(v));
    } else {
        lemma_put_by_push(s.drop_first(), key, v);
        assert(put_by(s, key, v) =~= s.push(v));
    }
}

/// Removal of a present key deletes the record at its first position.
pub proof fn lemma_remove_by_at<T, K>(s: Seq<T>, key: spec_fn(T) -> K, k: K, i: int)
    requires
        0 <= i < s.len(),
        key(s[i]) == k,
        forall|j: int| 0 <= j < i ==> key(s[j]) != k,
    ensures
        remove_by(s, key, k) == s.remove(i),
    decreases i,
{
    if i == 0 {
        assert(remove_by(s, key, k) =~= s.remove(0));
    } else {
        assert forall|j: int| 0 <= j < i - 1 implies key(s.drop_first()[j]) != k by {
            assert(s.drop_first()[j] == s[j + 1]);
        }
        assert(s.drop_first()[i - 1] == s[i]);
        lemma_remove_by_at(s.drop_first(), key, k, i - 1);
        assert(remove_by(s, key, k) =~= s.remove(i));
    }
}

/// Removal of an absent key leaves the sequence unchanged.
pub proof fn lemma_remove_by_absent<T, K>(s: Seq<T>, key: spec_fn(T) -> K, k: K)
    requires
        find_by(s, key, k) is None,
    ensures
        remove_by(s, key, k) == s,
    decreases s.len(),
{
    if s.len() != 0 {
        lemma_remove_by_absent(s.drop_first(), key, k);
        assert(remove_by(s, key, k) =~= s);
    }
}

/// How lookup behaves on the result of insert-or-replace.
pub proof fn lemma_find_by_put_by<T, K>(s: Seq<T>, key: spec_fn(T) -> K, v: T, k: K)
    ensures
        find_by(put_by(s, key, v), key, k) == if k == key(v) {
            Some(v)
        } else {
            find_by(s, key, k)
        },
    decreases s.len(),
{
    let t = put_by(s, key, v);
    if s.len() == 0 {
        assert(t[0] == v);
        if k != key(v) {
            assert(t.drop_first() =~= Seq::<T>::empty());
            assert(find_by(Seq::<T>::empty(), key, k) is None);
            assert(find_by(t, key, k) == find_by(t.drop_first(), key, k));
        }
    } else if key(s[0]) == key(v) {
        assert(t[0] == v);
        assert(t.drop_first() =~= s.drop_first());
        if k == key(v) {
            assert(find_by(t, key, k) == Some(v));
        } else {
            assert(find_by(t, key, k) == find_by(s.drop_first(), key, k));
            assert(find_by(s, key, k) == find_by(s.drop_first(), key, k));
        }
    } else {
        assert(t[0] == s[0]);
        assert(t.drop_first() =~= put_by(s.drop_first(), key, v));
        lemma_find_by_put_by(s.drop_first(), key, v, k);
        if key(s[0]) == k {
            assert(find_by(t, key, k) == Some(s[0]));
            assert(find_by(s, key, k) == Some(s[0]));
        } else {
            assert(find_by(t, key, k) == find_by(put_by(s.drop_first(), key, v), key, k));
            assert(find_by(s, key, k) == find_by(s.drop_first(), key, k));
        }
    }
}

/// Every record of an insert-or-replace result is the inserted record or a
/// record of the original sequence.
pub proof fn lemma_put_by_elems<T, K>(s: Seq<T>, key: spec_fn(T) -> K, v: T)
    ensures
        forall|i: int|
            0 <= i < put_by(s, key, v).len() ==> (#[trigger] put_by(s, key, v)[i]) == v
                || s.contains(put_by(s, key, v)[i]),
    decreases s.len(),
{
    let t = put_by(s, key, v);
    if s.len() == 0 {
        assert(t[0] == v);
    } else if key(s[0]) == key(v) {
        assert forall|i: int| 0 <= i < t.len() implies t[i] == v || s.contains(t[i]) by {
            if i > 0 {
                assert(t[i] == s.drop_first()[i - 1]);
                assert(t[i] == s[i]);
            }
        }
    } else {
        lemma_put_by_elems(s.drop_first(), key, v);
        assert forall|i: int| 0 <= i < t.len() implies t[i] == v || s.contains(t[i]) by {
            if i == 0 {
                assert(t[0] == s[0]);
            } else {
                assert(t[i] == put_by(s.drop_first(), key, v)[i - 1]);
                if t[i] != v {
                    assert(s.drop_first().contains(t[i]));
                    let l = choose|l: int|
                        0 <= l < s.drop_first().len() && s.drop_first()[l] == t[i];
                    assert(s[l + 1] == t[i]);
                }
            }
        }
    }
}

/// Insert-or-replace keeps keys pairwise distinct.
pub proof fn lemma_distinct_put_by<T, K>(s: Seq<T>, key: spec_fn(T) -> K, v: T)
    requires
        distinct_by(s, key),
    ensures
        distinct_by(put_by(s, key, v), key),
{
    lemma_find_by_props(s, key, key(v));
    match find_by(s, key, key(v)) {
        Some(w) => {
            let i = choose|i: int| 0 <= i < s.len() && s[i] == w;
            lemma_find_by_first(s, key, key(v), i);
            lemma_put_by_update(s, key, v, i);
            lemma_distinct_update(s, key, i, v);
        },
        None => {
            lemma_put_by_push(s, key, v);
            lemma_distinct_push(s, key, v);
        },
    }
}

/// How lookup behaves on the result of removal, when keys are pairwise
/// distinct.
pub proof fn lemma_find_by_remove_by<T, K>(s: Seq<T>, key: spec_fn(T) -> K, k0: K, k: K)
    requires
        distinct_by(s, key),
    ensures
        find_by(remove_by(s, key, k0), key, k) == if k == k0 {
            None::<T>
        } else {
            find_by(s, key, k)
        },
{
    lemma_find_by_props(s, key, k0);
    match find_by(s, key, k0) {
        Some(w) => {
            let i = choose|i: int| 0 <= i < s.len() && s[i] == w;
            lemma_find_by_first(s, key, k0, i);
            lemma_remove_by_at(s, key, k0, i);
            lemma_find_by_remove(s, key, i, k);
        },
        None => {
            lemma_remove_by_absent(s, key, k0);
        },
    }
}

/// Removal keeps keys pairwise distinct.
pub proof fn lemma_distinct_remove_by<T, K>(s: Seq<T>, key: spec_fn(T) -> K, k0: K)
    requires
        distinct_by(s, key),
    ensures
        distinct_by(remove_by(s, key, k0), key),
{
    lemma_find_by_props(s, key, k0);
    match find_by(s, key, k0) {
        Some(w) => {
            let i = choose|i: int| 0 <= i < s.len() && s[i] == w;
            lemma_find_by_first(s, key, k0, i);
            lemma_remove_by_at(s, key, k0, i);
            lemma_distinct_remove(s, key, i);
        },
        None => {
            lemma_remove_by_absent(s, key, k0);
        },
    }
}

/// In a sequence with pairwise distinct keys, every record of an
/// insert-or-replace result is the inserted record or a record of the
/// original sequence whose key differs from the inserted one.
pub proof fn lemma_put_by_elems_distinct<T, K>(s: Seq<T>, key: spec_fn(T) -> K, v: T)
    requires
        distinct_by(s, key),
    ensures
        forall|i: int|
            0 <= i < put_by(s, key, v).len() ==> (#[trigger] put_by(s, key, v)[i]) == v || (
            s.contains(put_by(s, key, v)[i]) && key(put_by(s, key, v)[i]) != key(v)),
{
    let t = put_by(s, key, v);
    lemma_find_by_props(s, key, key(v));
    match find_by(s, key, key(v)) {
        Some(w) => {
            let i0 = choose|i: int| 0 <= i < s.len() && s[i] == w;
            lemma_find_by_first(s, key, key(v), i0);
            lemma_put_by_update(s, key, v, i0);
            assert forall|i: int| 0 <= i < t.len() implies t[i] == v || (s.contains(t[i]) && key(
                t[i],
            ) != key(v)) by {
                if i != i0 {
                    assert(t[i] == s[i]);
                    assert(key(s[i]) != key(s[i0]));
                }
            }
        },
        None => {
            lemma_put_by_push(s, key, v);
            assert forall|i: int| 0 <= i < t.len() implies t[i] == v || (s.contains(t[i]) && key(
                t[i],
            ) != key(v)) by {
                if i < s.len() {
                    assert(t[i] == s[i]);
                }
            }
        },
    }
}

/// Lookup with the identity key is sequence membership.
pub proof fn lemma_find_val_contains<T>(s: Seq<T>, x: T)
    ensures
        (find_by(s, idkey(), x) is Some) <==> s.contains(x),
{
    let key = idkey::<T>();
    lemma_find_by_props(s, key, x);
    if s.contains(x) {
        let i = choose|i: int| 0 <= i < s.len() && s[i] == x;
        match find_by(s, key, x) {
            Some(_) => {},
            None => {
                assert(key(s[i]) == x);
            },
        }
    }
}

/// The number of positions of `s` that hold `x`.
pub open spec fn count_of<T>(s: Seq<T>, x: T) -> nat
    decreases s.len(),
{
    if s.len() == 0 {
        0
    } else {
        (if s[0] == x {
            1nat
        } else {
            0nat
        }) + count_of(s.drop_first(), x)
    }
}

/// In a sequence of pairwise distinct values that contains `x`, the value
/// `x` occurs exactly once.
pub proof fn lemma_count_of_distinct<T>(s: Seq<T>, x: T)
    requires
        distinct_by(s, idkey()),
        s.contains(x),
    ensures
        count_of(s, x) == 1,
    decreases s.len(),
{
    let key = idkey::<T>();
    let i = choose|i: int| 0 <= i < s.len() && s[i] == x;
    if s[0] == x {
        assert forall|j: int| 0 <= j < s.drop_first().len() implies s.drop_first()[j]
            != x by {
            assert(s.drop_first()[j] == s[j + 1]);
            assert(key(s[0]) != key(s[j + 1]));
        }
        lemma_count_of_absent(s.drop_first(), x);
    } else {
        assert(s.drop_first()[i - 1] == s[i]);
        assert(s.drop_first().contains(x));
        assert forall|a: int, b: int|
            0 <= a < b < s.drop_first().len() implies key(s.drop_first()[a]) != key(
            s.drop_first()[b],
        ) by {
            assert(s.drop_first()[a] == s[a + 1]);
            assert(s.drop_first()[b] == s[b + 1]);
        }
        lemma_count_of_distinct(s.drop_first(), x);
    }
}

/// A value absent from a sequence occurs zero times in it.
pub proof fn lemma_count_of_absent<T>(s: Seq<T>, x: T)
    requires
        forall|j: int| 0 <= j < s.len() ==> s[j] != x,
    ensures
        count_of(s, x) == 0,
    decreases s.len(),
{
    if s.len() != 0 {
        assert forall|j: int| 0 <= j < s.drop_first().len() implies s.drop_first()[j]
            != x by {
            assert(s.drop_first()[j] == s[j + 1]);
        }
        lemma_count_of_absent(s.drop_first(), x);
    }
}

} // verus!
