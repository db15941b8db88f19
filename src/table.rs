//! Small association lists keyed by name.
//!
//! The registry, the probe caches and the bounded cache all keep a handful of
//! named records. They are held as a `Vec` of `(String, V)` pairs whose keys
//! are pairwise distinct and whose order is the order of first insertion.
//! Contracts speak of the pairs with each key replaced by its characters.
use vstd::prelude::*;

verus! {

/// The pairs with every key replaced by its characters.
pub open spec fn keyed<V>(s: Seq<(String, V)>) -> Seq<(Seq<char>, V)> {
    s.map_values(|p: (String, V)| (p.0@, p.1))
}

/// No key occurs twice.
pub open spec fn keys_distinct<V>(s: Seq<(Seq<char>, V)>) -> bool {
    forall|i: int, j: int|
        0 <= i < s.len() && 0 <= j < s.len() && i != j ==> #[trigger] s[i].0 != #[trigger] s[j].0
}

/// Some pair carries key `k`.
pub open spec fn has_key<V>(s: Seq<(Seq<char>, V)>, k: Seq<char>) -> bool {
    exists|i: int| 0 <= i < s.len() && #[trigger] s[i].0 == k
}

/// The position of key `k`, or -1 where it is absent.
pub open spec fn index_of<V>(s: Seq<(Seq<char>, V)>, k: Seq<char>) -> int {
    if has_key(s, k) {
        choose|i: int| 0 <= i < s.len() && #[trigger] s[i].0 == k
    } else {
        -1
    }
}

/// What is stored under `k`, if anything.
pub open spec fn lookup<V>(s: Seq<(Seq<char>, V)>, k: Seq<char>) -> Option<V> {
    if has_key(s, k) {
        Some(s[index_of(s, k)].1)
    } else {
        None
    }
}

/// `s` with `v` stored under `k`: in place where `k` is present, at the end otherwise.
pub open spec fn put<V>(s: Seq<(Seq<char>, V)>, k: Seq<char>, v: V) -> Seq<(Seq<char>, V)> {
    if has_key(s, k) {
        s.update(index_of(s, k), (k, v))
    } else {
        s.push((k, v))
    }
}

/// `s` without the pair of key `k`.
pub open spec fn without<V>(s: Seq<(Seq<char>, V)>, k: Seq<char>) -> Seq<(Seq<char>, V)> {
    if has_key(s, k) {
        s.remove(index_of(s, k))
    } else {
        s
    }
}

/// With distinct keys, a position that carries `k` is the position of `k`.
pub proof fn lemma_index_of<V>(s: Seq<(Seq<char>, V)>, i: int)
    requires
        keys_distinct(s),
        0 <= i < s.len(),
    ensures
        has_key(s, s[i].0),
        index_of(s, s[i].0) == i,
{
    let k = s[i].0;
    assert(s[i].0 == k);
    let j = index_of(s, k);
    assert(s[j].0 == k);
}

/// Storing under a key keeps the keys distinct.
pub proof fn lemma_put_distinct<V>(s: Seq<(Seq<char>, V)>, k: Seq<char>, v: V)
    requires
        keys_distinct(s),
    ensures
        keys_distinct(put(s, k, v)),
        has_key(put(s, k, v), k),
        lookup(put(s, k, v), k) == Some(v),
{
    let t = put(s, k, v);
    if has_key(s, k) {
        let i = index_of(s, k);
        assert(s[i].0 == k);
        assert forall|a: int, b: int|
            0 <= a < t.len() && 0 <= b < t.len() && a != b implies #[trigger] t[a].0
            != #[trigger] t[b].0 by {
            assert(s[a].0 != s[b].0);
        }
        assert(t[i].0 == k);
        lemma_index_of(t, i);
    } else {
        let n = s.len() as int;
        assert forall|a: int, b: int|
            0 <= a < t.len() && 0 <= b < t.len() && a != b implies #[trigger] t[a].0
            != #[trigger] t[b].0 by {
            if a < n && b < n {
                assert(s[a].0 != s[b].0);
            } else if a < n {
                assert(s[a].0 == t[a].0);
            } else {
                assert(s[b].0 == t[b].0);
            }
        }
        assert(t[n].0 == k);
        lemma_index_of(t, n);
    }
}

/// Removing a position keeps the keys distinct and drops exactly that key.
pub proof fn lemma_remove_distinct<V>(s: Seq<(Seq<char>, V)>, i: int)
    requires
        keys_distinct(s),
        0 <= i < s.len(),
    ensures
        keys_distinct(s.remove(i)),
        !has_key(s.remove(i), s[i].0),
        forall|k: Seq<char>| k != s[i].0 ==> lookup(#[trigger] s.remove(i), k) == lookup(s, k),
{
    let t = s.remove(i);
    assert forall|a: int, b: int|
        0 <= a < t.len() && 0 <= b < t.len() && a != b implies #[trigger] t[a].0
        != #[trigger] t[b].0 by {
        let a2 = if a < i { a } else { a + 1 };
        let b2 = if b < i { b } else { b + 1 };
        assert(t[a] == s[a2]);
        assert(t[b] == s[b2]);
        assert(s[a2].0 != s[b2].0);
    }
    if has_key(t, s[i].0) {
        let a = index_of(t, s[i].0);
        let a2 = if a < i { a } else { a + 1 };
        assert(t[a] == s[a2]);
        assert(s[a2].0 != s[i].0);
    }
    assert forall|k: Seq<char>| k != s[i].0 implies lookup(#[trigger] s.remove(i), k) == lookup(
        s,
        k,
    ) by {
        if has_key(s, k) {
            let j = index_of(s, k);
            assert(s[j].0 == k);
            assert(j != i);
            let j2 = if j < i { j } else { j - 1 };
            assert(t[j2] == s[j]);
            lemma_index_of(t, j2);
        }
        if has_key(t, k) {
            let a = index_of(t, k);
            let a2 = if a < i { a } else { a + 1 };
            assert(t[a] == s[a2]);
            assert(s[a2].0 == k);
        }
    }
}

/// Two lists with the same keys position by position agree on where each key is.
pub proof fn lemma_same_keys<V, W>(a: Seq<(Seq<char>, V)>, b: Seq<(Seq<char>, W)>)
    requires
        keys_distinct(a),
        a.len() == b.len(),
        forall|i: int| 0 <= i < a.len() ==> #[trigger] a[i].0 == b[i].0,
    ensures
        keys_distinct(b),
        forall|k: Seq<char>| #[trigger] has_key(b, k) == has_key(a, k),
        forall|k: Seq<char>| has_key(a, k) ==> #[trigger] index_of(b, k) == index_of(a, k),
{
    assert forall|i: int, j: int|
        0 <= i < b.len() && 0 <= j < b.len() && i != j implies #[trigger] b[i].0
        != #[trigger] b[j].0 by {
        assert(a[i].0 != a[j].0);
    }
    assert forall|k: Seq<char>| #[trigger] has_key(b, k) == has_key(a, k) by {
        if has_key(a, k) {
            let i = index_of(a, k);
            assert(a[i].0 == k);
            assert(b[i].0 == k);
        }
        if has_key(b, k) {
            let i = index_of(b, k);
            assert(b[i].0 == k);
            assert(a[i].0 == k);
        }
    }
    assert forall|k: Seq<char>| has_key(a, k) implies #[trigger] index_of(b, k) == index_of(a, k) by {
        let i = index_of(a, k);
        assert(a[i].0 == k);
        assert(b[i].0 == k);
        lemma_index_of(b, i);
    }
}

/// Finds the position of `k` in `s`.
pub fn find_key<V>(s: &Vec<(String, V)>, k: &str) -> (r: Option<usize>)
    requires
        keys_distinct(keyed(s@)),
    ensures
        match r {
            Some(i) => i < s@.len() && has_key(keyed(s@), k@) && i == index_of(keyed(s@), k@),
            None => !has_key(keyed(s@), k@),
        },
{
    let key = k.to_owned();
    let ghost ks = keyed(s@);
    let mut i: usize = 0;
    while i < s.len()
        invariant
            0 <= i <= s@.len(),
            ks == keyed(s@),
            keys_distinct(ks),
            key@ == k@,
            forall|j: int| 0 <= j < i ==> ks[j].0 != k@,
        decreases s@.len() - i,
    {
        if s[i].0 == key {
            proof {
                assert(ks[i as int].0 == k@);
                lemma_index_of(ks, i as int);
            }
            return Some(i);
        }
        i = i + 1;
    }
    proof {
        if has_key(ks, k@) {
            let j = index_of(ks, k@);
            assert(ks[j].0 == k@);
        }
    }
    None
}

/// Stores `v` under `k`: in place where `k` is present, at the end otherwise.
pub fn put_key<V>(s: &mut Vec<(String, V)>, k: &str, v: V)
    requires
        keys_distinct(keyed(old(s)@)),
    ensures
        keyed(final(s)@) == put(keyed(old(s)@), k@, v),
        keys_distinct(keyed(final(s)@)),
{
    let found = find_key(s, k);
    let ghost ks = keyed(s@);
    match found {
        Some(i) => {
            s.set(i, (k.to_owned(), v));
            assert(keyed(s@) =~= ks.update(i as int, (k@, v)));
        },
        None => {
            s.push((k.to_owned(), v));
            assert(keyed(s@) =~= ks.push((k@, v)));
        },
    }
    proof {
        lemma_put_distinct(ks, k@, v);
    }
}

} // verus!
