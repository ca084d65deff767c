//! Small association tables keyed by snapshot path.
//!
//! The per-snapshot password store and access tracker are plain vectors of
//! key-value pairs with pairwise-distinct keys. Contracts speak of them
//! through [`table_has`] and [`table_get`].

use vstd::prelude::*;

verus! {

/// Whether `s` holds an entry whose key reads `key`.
pub open spec fn table_has<V>(s: Seq<(String, V)>, key: Seq<char>) -> bool {
    exists|i: int| 0 <= i < s.len() && (#[trigger] s[i]).0@ == key
}

/// The value stored under `key`; meaningful only when [`table_has`] holds and
/// the keys of `s` are pairwise distinct.
pub open spec fn table_get<V>(s: Seq<(String, V)>, key: Seq<char>) -> V {
    s[choose|i: int| 0 <= i < s.len() && (#[trigger] s[i]).0@ == key].1
}

/// Pairwise-distinct keys.
pub open spec fn table_unique<V>(s: Seq<(String, V)>) -> bool {
    forall|i: int, j: int|
        0 <= i < j < s.len() ==> (#[trigger] s[i]).0@ != (#[trigger] s[j]).0@
}

/// Finds the index of the entry whose key reads `key`.
pub fn table_find<V>(table: &Vec<(String, V)>, key: &String) -> (r: Option<usize>)
    ensures
        match r {
            Some(i) => i < table@.len() && table@[i as int].0@ == key@ && table_has(table@, key@),
            None => !table_has(table@, key@),
        },
{
    let mut i: usize = 0;
    while i < table.len()
        invariant
            i <= table@.len(),
            forall|j: int| 0 <= j < i ==> (#[trigger] table@[j]).0@ != key@,
        decreases table@.len() - i,
    {
        if table[i].0 == *key {
            return Some(i);
        }
        i += 1;
    }
    None
}

/// With distinct keys, any entry whose key reads `key` is the one that
/// [`table_get`] denotes.
pub proof fn lemma_get_at<V>(s: Seq<(String, V)>, key: Seq<char>, i: int)
    requires
        table_unique(s),
        0 <= i < s.len(),
        s[i].0@ == key,
    ensures
        table_has(s, key),
        table_get(s, key) == s[i].1,
{
    assert(table_has(s, key));
    let j = choose|j: int| 0 <= j < s.len() && (#[trigger] s[j]).0@ == key;
    assert(s[j].0@ == key);
    if i != j {
        assert(s[i].0@ != s[j].0@);
        assert(false);
    }
}

/// Stores `value` under `key`, replacing any previous entry.
pub fn table_set<V>(table: &mut Vec<(String, V)>, key: &String, value: V)
    requires
        table_unique(old(table)@),
    ensures
        table_unique(final(table)@),
        table_has(final(table)@, key@),
        table_get(final(table)@, key@) == value,
        forall|k: Seq<char>|
            k != key@ ==> #[trigger] table_has(final(table)@, k) == table_has(old(table)@, k),
        forall|k: Seq<char>|
            k != key@ && table_has(old(table)@, k) ==> #[trigger] table_get(final(table)@, k)
                == table_get(old(table)@, k),
{
    let ghost s1 = table@;
    match table_find(table, key) {
        Some(i) => {
            table[i] = (key.clone(), value);
            let ghost s2 = table@;
            proof {
                assert(s2 =~= s1.update(i as int, (s2[i as int].0, value)));
                assert(s2[i as int].0@ == key@);
                assert forall|a: int, b: int| 0 <= a < b < s2.len() implies (#[trigger] s2[a]).0@
                    != (#[trigger] s2[b]).0@ by {
                    assert(s1[a].0@ == s2[a].0@ && s1[b].0@ == s2[b].0@);
                }
                lemma_get_at(s2, key@, i as int);
                assert forall|k: Seq<char>| k != key@ implies #[trigger] table_has(s2, k)
                    == table_has(s1, k) by {
                    if table_has(s1, k) {
                        let w = choose|w: int| 0 <= w < s1.len() && (#[trigger] s1[w]).0@ == k;
                        assert(w != i && s2[w] == s1[w]);
                        assert(table_has(s2, k));
                    }
                    if table_has(s2, k) {
                        let w = choose|w: int| 0 <= w < s2.len() && (#[trigger] s2[w]).0@ == k;
                        assert(w != i && s2[w] == s1[w]);
                        assert(table_has(s1, k));
                    }
                }
                assert forall|k: Seq<char>| k != key@ && table_has(s1, k) implies
                    #[trigger] table_get(s2, k) == table_get(s1, k) by {
                    let w = choose|w: int| 0 <= w < s1.len() && (#[trigger] s1[w]).0@ == k;
                    assert(w != i && s2[w] == s1[w]);
                    lemma_get_at(s1, k, w);
                    lemma_get_at(s2, k, w);
                }
            }
        },
        None => {
            table.push((key.clone(), value));
            let ghost s2 = table@;
            proof {
                assert(s2 =~= s1.push((s2[s1.len() as int].0, value)));
                let n = s1.len() as int;
                assert(s2[n].0@ == key@);
                assert forall|a: int, b: int| 0 <= a < b < s2.len() implies (#[trigger] s2[a]).0@
                    != (#[trigger] s2[b]).0@ by {
                    if b < n {
                        assert(s1[a].0@ != s1[b].0@);
                    } else {
                        assert(s2[a] == s1[a]);
                        assert(!table_has(s1, key@));
                        assert(s1[a].0@ != key@);
                    }
                }
                lemma_get_at(s2, key@, n);
                assert forall|k: Seq<char>| k != key@ implies #[trigger] table_has(s2, k)
                    == table_has(s1, k) by {
                    if table_has(s1, k) {
                        let w = choose|w: int| 0 <= w < s1.len() && (#[trigger] s1[w]).0@ == k;
                        assert(s2[w] == s1[w]);
                        assert(table_has(s2, k));
                    }
                    if table_has(s2, k) {
                        let w = choose|w: int| 0 <= w < s2.len() && (#[trigger] s2[w]).0@ == k;
                        assert(w != n);
                        assert(s2[w] == s1[w]);
                        assert(table_has(s1, k));
                    }
                }
                assert forall|k: Seq<char>| k != key@ && table_has(s1, k) implies
                    #[trigger] table_get(s2, k) == table_get(s1, k) by {
                    let w = choose|w: int| 0 <= w < s1.len() && (#[trigger] s1[w]).0@ == k;
                    assert(s2[w] == s1[w]);
                    lemma_get_at(s1, k, w);
                    lemma_get_at(s2, k, w);
                }
            }
        },
    }
}

/// Removes the entry stored under `key`, if any.
pub fn table_remove<V>(table: &mut Vec<(String, V)>, key: &String)
    requires
        table_unique(old(table)@),
    ensures
        table_unique(final(table)@),
        !table_has(final(table)@, key@),
        forall|k: Seq<char>|
            k != key@ ==> #[trigger] table_has(final(table)@, k) == table_has(old(table)@, k),
        forall|k: Seq<char>|
            k != key@ && table_has(old(table)@, k) ==> #[trigger] table_get(final(table)@, k)
                == table_get(old(table)@, k),
{
    let ghost s1 = table@;
    match table_find(table, key) {
        Some(i) => {
            table.remove(i);
            let ghost s2 = table@;
            proof {
                let n = i as int;
                assert(s2 =~= s1.remove(n));
                assert forall|a: int, b: int| 0 <= a < b < s2.len() implies (#[trigger] s2[a]).0@
                    != (#[trigger] s2[b]).0@ by {
                    let a1: int = if a < n { a } else { a + 1 };
                    let b1: int = if b < n { b } else { b + 1 };
                    assert(s2[a] == s1[a1] && s2[b] == s1[b1]);
                    assert(s1[a1].0@ != s1[b1].0@);
                }
                assert forall|k: Seq<char>| table_has(s2, k) implies k != key@ && table_has(s1, k) by {
                    let w = choose|w: int| 0 <= w < s2.len() && (#[trigger] s2[w]).0@ == k;
                    let w1: int = if w < n { w } else { w + 1 };
                    assert(s2[w] == s1[w1]);
                    assert(table_has(s1, k));
                    if k == key@ {
                        assert(s1[w1].0@ == s1[n].0@ && w1 != n);
                        assert(false);
                    }
                }
                assert forall|k: Seq<char>| k != key@ && table_has(s1, k) implies table_has(s2, k) by {
                    let w = choose|w: int| 0 <= w < s1.len() && (#[trigger] s1[w]).0@ == k;
                    assert(w != n);
                    let w2: int = if w < n { w } else { w - 1 };
                    assert(s2[w2] == s1[w]);
                    assert(table_has(s2, k));
                }
                assert forall|k: Seq<char>| k != key@ && table_has(s1, k) implies
                    #[trigger] table_get(s2, k) == table_get(s1, k) by {
                    let w = choose|w: int| 0 <= w < s1.len() && (#[trigger] s1[w]).0@ == k;
                    assert(w != n);
                    let w2: int = if w < n { w } else { w - 1 };
                    assert(s2[w2] == s1[w]);
                    lemma_get_at(s1, k, w);
                    lemma_get_at(s2, k, w2);
                }
            }
        },
        None => {},
    }
}

/// A borrow of the key at index `i`.
pub fn table_key_at<V>(table: &Vec<(String, V)>, i: usize) -> (r: &String)
    requires
        i < table@.len(),
    ensures
        r@ == table@[i as int].0@,
{
    &table[i].0
}

/// A borrow of the value at index `i`.
pub fn table_val_at<V>(table: &Vec<(String, V)>, i: usize) -> (r: &V)
    requires
        i < table@.len(),
    ensures
        *r == table@[i as int].1,
{
    &table[i].1
}

/// Copies a byte string.
pub fn clone_bytes(v: &Vec<u8>) -> (r: Vec<u8>)
    ensures
        r@ == v@,
{
    let mut out: Vec<u8> = Vec::new();
    let mut i: usize = 0;
    while i < v.len()
        invariant
            i <= v@.len(),
            out@ =~= v@.take(i as int),
        decreases v@.len() - i,
    {
        out.push(v[i]);
        proof {
            assert(out@ =~= v@.take(i + 1 as int));
        }
        i += 1;
    }
    proof {
        assert(out@ =~= v@);
    }
    out
}

/// Compares two byte strings.
pub fn bytes_eq(a: &Vec<u8>, b: &Vec<u8>) -> (r: bool)
    ensures
        r == (a@ == b@),
{
    if a.len() != b.len() {
        proof {
            assert(a@ != b@);
        }
        return false;
    }
    let mut i: usize = 0;
    while i < a.len()
        invariant
            i <= a@.len(),
            a@.len() == b@.len(),
            forall|j: int| 0 <= j < i ==> a@[j] == b@[j],
        decreases a@.len() - i,
    {
        if a[i] != b[i] {
            proof {
                assert(a@ != b@);
            }
            return false;
        }
        i += 1;
    }
    proof {
        assert(a@ =~= b@);
    }
    true
}

} // verus!
