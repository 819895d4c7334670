//! Keyed sequences: the mathematical model of the engine's ledgers.
//!
//! A ledger is a sequence of `(key, value)` entries in order of insertion,
//! with no key twice. The functions here say what looking up, writing and
//! removing a key mean on such a sequence.

use vstd::prelude::*;

verus! {

/// Some entry of `s` has the key `k`.
pub open spec fn has_key<K, V>(s: Seq<(K, V)>, k: K) -> bool {
    exists|i: int| 0 <= i < s.len() && (#[trigger] s[i]).0 == k
}

/// The place of an entry with the key `k` (the only one, where keys are distinct).
pub open spec fn key_index<K, V>(s: Seq<(K, V)>, k: K) -> int {
    choose|i: int| 0 <= i < s.len() && (#[trigger] s[i]).0 == k
}

/// The value stored under `k`, if there is one.
pub open spec fn lookup<K, V>(s: Seq<(K, V)>, k: K) -> Option<V> {
    if has_key(s, k) {
        Some(s[key_index(s, k)].1)
    } else {
        None
    }
}

/// No key occurs twice.
pub open spec fn distinct_keys<K, V>(s: Seq<(K, V)>) -> bool {
    forall|i: int, j: int|
        0 <= i < j < s.len() ==> (#[trigger] s[i]).0 != (#[trigger] s[j]).0
}

/// `s` with `v` stored under `k`: in place where the key exists, at the end
/// where it does not.
pub open spec fn with_entry<K, V>(s: Seq<(K, V)>, k: K, v: V) -> Seq<(K, V)> {
    if has_key(s, k) {
        s.update(key_index(s, k), (k, v))
    } else {
        s.push((k, v))
    }
}

/// `s` without the key `k`: the last entry moves into the gap.
pub open spec fn without_key<K, V>(s: Seq<(K, V)>, k: K) -> Seq<(K, V)> {
    if has_key(s, k) {
        s.update(key_index(s, k), s.last()).drop_last()
    } else {
        s
    }
}

/// With distinct keys, an entry found at `i` is the entry of its key.
pub proof fn lemma_key_found<K, V>(s: Seq<(K, V)>, k: K, i: int)
    requires
        distinct_keys(s),
        0 <= i < s.len(),
        s[i].0 == k,
    ensures
        has_key(s, k),
        key_index(s, k) == i,
        lookup(s, k) == Some(s[i].1),
{
    let j = key_index(s, k);
    assert(0 <= j < s.len() && s[j].0 == k);
    if j < i {
        assert(s[j].0 != s[i].0);
    } else if i < j {
        assert(s[i].0 != s[j].0);
    }
}

/// A key that no entry carries is absent.
pub proof fn lemma_key_absent<K, V>(s: Seq<(K, V)>, k: K)
    requires
        forall|i: int| 0 <= i < s.len() ==> (#[trigger] s[i]).0 != k,
    ensures
        !has_key(s, k),
        lookup(s, k) == None::<V>,
{
}

/// Writing a key keeps the keys distinct, stores the value, and leaves every
/// other key as it was.
pub proof fn lemma_with_entry<K, V>(s: Seq<(K, V)>, k: K, v: V)
    requires
        distinct_keys(s),
    ensures
        distinct_keys(with_entry(s, k, v)),
        lookup(with_entry(s, k, v), k) == Some(v),
        forall|other: K| other != k ==> lookup(with_entry(s, k, v), other) == lookup(s, other),
        with_entry(s, k, v).len() == if has_key(s, k) {
            s.len()
        } else {
            s.len() + 1
        },
{
    let t = with_entry(s, k, v);
    if has_key(s, k) {
        let i = key_index(s, k);
        assert forall|a: int, b: int| 0 <= a < b < t.len() implies (#[trigger] t[a]).0 != (
        #[trigger] t[b]).0 by {
            assert(s[a].0 != s[b].0);
        }
        assert(t[i].0 == k);
        lemma_key_found(t, k, i);
        assert forall|other: K| other != k implies lookup(t, other) == lookup(s, other) by {
            if has_key(s, other) {
                let j = key_index(s, other);
                assert(j != i);
                assert(t[j] == s[j]);
                lemma_key_found(t, other, j);
            } else {
                if has_key(t, other) {
                    let j = key_index(t, other);
                    assert(s[j].0 == other);
                }
            }
        }
    } else {
        let n = s.len() as int;
        assert forall|a: int, b: int| 0 <= a < b < t.len() implies (#[trigger] t[a]).0 != (
        #[trigger] t[b]).0 by {
            if b == n {
                assert(s[a].0 != k);
                assert(t[a] == s[a]);
            } else {
                assert(s[a].0 != s[b].0);
            }
        }
        assert(t[n].0 == k);
        lemma_key_found(t, k, n);
        assert forall|other: K| other != k implies lookup(t, other) == lookup(s, other) by {
            if has_key(s, other) {
                let j = key_index(s, other);
                assert(t[j] == s[j]);
                lemma_key_found(t, other, j);
            } else {
                if has_key(t, other) {
                    let j = key_index(t, other);
                    assert(j < n);
                    assert(s[j].0 == other);
                }
            }
        }
    }
}

/// Removing a key keeps the keys distinct, removes the key, and leaves every
/// other key as it was.
pub proof fn lemma_without_key<K, V>(s: Seq<(K, V)>, k: K)
    requires
        distinct_keys(s),
    ensures
        distinct_keys(without_key(s, k)),
        !has_key(without_key(s, k), k),
        forall|other: K| other != k ==> lookup(without_key(s, k), other) == lookup(s, other),
{
    let t = without_key(s, k);
    if has_key(s, k) {
        let i = key_index(s, k);
        let n = s.len() - 1;
        assert forall|a: int| 0 <= a < t.len() implies (#[trigger] t[a]).0 != k by {
            if a == i {
                assert(t[a] == s[n]);
                assert(s[i].0 != s[n].0);
            } else {
                assert(t[a] == s[a]);
                if a < i {
                    assert(s[a].0 != s[i].0);
                } else {
                    assert(s[i].0 != s[a].0);
                }
            }
        }
        assert forall|a: int, b: int| 0 <= a < b < t.len() implies (#[trigger] t[a]).0 != (
        #[trigger] t[b]).0 by {
            let sa = if a == i {
                n
            } else {
                a
            };
            let sb = if b == i {
                n
            } else {
                b
            };
            assert(t[a] == s[sa] && t[b] == s[sb]);
            if sa < sb {
                assert(s[sa].0 != s[sb].0);
            } else {
                assert(s[sb].0 != s[sa].0);
            }
        }
        assert forall|other: K| other != k implies lookup(t, other) == lookup(s, other) by {
            if has_key(s, other) {
                let j = key_index(s, other);
                let tj = if j == n {
                    i
                } else {
                    j
                };
                assert(j != i);
                assert(t[tj] == s[j]);
                lemma_key_found(t, other, tj);
            } else {
                if has_key(t, other) {
                    let j = key_index(t, other);
                    let sj = if j == i {
                        n
                    } else {
                        j
                    };
                    assert(t[j] == s[sj]);
                    assert(s[sj].0 == other);
                }
            }
        }
    } else {
    }
}

} // verus!
