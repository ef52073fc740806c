//! Maps from strings kept as lists sorted by key, so that they are walked
//! in key order.
use vstd::prelude::*;

use crate::text::{seq_lt, str_eq, str_lt};

verus! {

/// The keys are strictly ascending, so each key is listed once.
pub open spec fn keys_sorted<T>(s: Seq<(Seq<char>, T)>) -> bool {
    forall|i: int, j: int| 0 <= i < j < s.len() ==> seq_lt(#[trigger] s[i].0, #[trigger] s[j].0)
}

/// Whether key `k` is listed.
pub open spec fn has_key<T>(s: Seq<(Seq<char>, T)>, k: Seq<char>) -> bool {
    exists|i: int| 0 <= i < s.len() && (#[trigger] s[i]).0 == k
}

/// The map the list stands for.
pub open spec fn assoc<T>(s: Seq<(Seq<char>, T)>) -> Map<Seq<char>, T> {
    Map::new(
        |k: Seq<char>| has_key(s, k),
        |k: Seq<char>| s[choose|i: int| 0 <= i < s.len() && (#[trigger] s[i]).0 == k].1,
    )
}

/// In a sorted list, the entry with key `s[i].0` is entry `i`.
pub proof fn lemma_sorted_unique_key<T>(s: Seq<(Seq<char>, T)>, i: int)
    requires
        keys_sorted(s),
        0 <= i < s.len(),
    ensures
        assoc(s).contains_key(s[i].0),
        assoc(s)[s[i].0] == s[i].1,
{
    assert(has_key(s, s[i].0));
    let j = choose|j: int| 0 <= j < s.len() && (#[trigger] s[j]).0 == s[i].0;
    if j < i {
        crate::text::lemma_seq_lt_irreflexive(s[i].0);
    } else if i < j {
        crate::text::lemma_seq_lt_irreflexive(s[i].0);
    }
}

/// Inserting a key at its place keeps the list sorted, and adds the key.
pub proof fn lemma_sorted_insert<T>(s: Seq<(Seq<char>, T)>, i: int, k: Seq<char>, v: T)
    requires
        keys_sorted(s),
        0 <= i <= s.len(),
        forall|j: int| 0 <= j < i ==> seq_lt(#[trigger] s[j].0, k),
        i < s.len() ==> seq_lt(k, s[i].0),
    ensures
        keys_sorted(s.insert(i, (k, v))),
        assoc(s.insert(i, (k, v))) == assoc(s).insert(k, v),
{
    let r = s.insert(i, (k, v));
    assert forall|a: int, b: int| 0 <= a < b < r.len() implies seq_lt(#[trigger] r[a].0, #[trigger] r[b].0) by {
        if b < i {
        } else if b == i {
        } else if a == i {
            if b - 1 > i {
                crate::text::lemma_seq_lt_transitive(k, s[i].0, s[b - 1].0);
            }
        } else if a < i {
            if b - 1 > i {
                crate::text::lemma_seq_lt_transitive(k, s[i].0, s[b - 1].0);
            }
            crate::text::lemma_seq_lt_transitive(s[a].0, k, s[b - 1].0);
        } else {
        }
    }
    assert forall|x: Seq<char>| #[trigger] assoc(r).contains_key(x) <==> assoc(s).insert(k, v).contains_key(x) by {
        if has_key(r, x) && x != k {
            let j = choose|j: int| 0 <= j < r.len() && (#[trigger] r[j]).0 == x;
            let j2 = if j < i { j } else { j - 1 };
            assert(s[j2] == r[j]);
        }
        if x == k {
            assert(r[i].0 == k);
        }
        if has_key(s, x) {
            let j = choose|j: int| 0 <= j < s.len() && (#[trigger] s[j]).0 == x;
            let j2 = if j < i { j } else { j + 1 };
            assert(r[j2] == s[j]);
        }
    }
    assert forall|x: Seq<char>| #[trigger] assoc(r).contains_key(x) implies assoc(r)[x] == assoc(s).insert(k, v)[x] by {
        if x == k {
            assert(r[i] == (k, v));
            lemma_sorted_unique_key(r, i);
        } else {
            let j = choose|j: int| 0 <= j < r.len() && (#[trigger] r[j]).0 == x;
            lemma_sorted_unique_key(r, j);
            let j2 = if j < i { j } else { j - 1 };
            assert(s[j2] == r[j]);
            lemma_sorted_unique_key(s, j2);
        }
    }
    assert(assoc(r) =~= assoc(s).insert(k, v));
}

/// Changing the value of entry `i` keeps the list sorted, and changes the
/// value of its key.
pub proof fn lemma_sorted_update<T>(s: Seq<(Seq<char>, T)>, i: int, v: T)
    requires
        keys_sorted(s),
        0 <= i < s.len(),
    ensures
        keys_sorted(s.update(i, (s[i].0, v))),
        assoc(s.update(i, (s[i].0, v))) == assoc(s).insert(s[i].0, v),
{
    let k = s[i].0;
    let r = s.update(i, (k, v));
    assert forall|a: int, b: int| 0 <= a < b < r.len() implies seq_lt(#[trigger] r[a].0, #[trigger] r[b].0) by {
        assert(r[a].0 == s[a].0 && r[b].0 == s[b].0);
    }
    assert forall|x: Seq<char>| #[trigger] assoc(r).contains_key(x) <==> assoc(s).insert(k, v).contains_key(x) by {
        if has_key(r, x) {
            let j = choose|j: int| 0 <= j < r.len() && (#[trigger] r[j]).0 == x;
            assert(s[j].0 == r[j].0);
        }
        if has_key(s, x) {
            let j = choose|j: int| 0 <= j < s.len() && (#[trigger] s[j]).0 == x;
            assert(r[j].0 == s[j].0);
        }
        if x == k {
            assert(r[i].0 == k);
        }
    }
    assert forall|x: Seq<char>| #[trigger] assoc(r).contains_key(x) implies assoc(r)[x] == assoc(s).insert(k, v)[x] by {
        if x == k {
            assert(r[i] == (k, v));
            lemma_sorted_unique_key(r, i);
        } else {
            let j = choose|j: int| 0 <= j < r.len() && (#[trigger] r[j]).0 == x;
            lemma_sorted_unique_key(r, j);
            assert(j != i);
            assert(s[j] == r[j]);
            lemma_sorted_unique_key(s, j);
        }
    }
    assert(assoc(r) =~= assoc(s).insert(k, v));
}

/// The keys of a list of string-keyed entries.
pub open spec fn keys_view<T>(v: Seq<(String, T)>) -> Seq<(Seq<char>, T)> {
    v.map_values(|e: (String, T)| (e.0@, e.1))
}

/// Finds key `k` in a sorted list: `Ok(i)` when entry `i` has it, else
/// `Err(i)` with `i` the place it would go.
pub fn locate<T>(v: &Vec<(String, T)>, k: &str) -> (r: Result<usize, usize>)
    requires
        keys_sorted(keys_view(v@)),
    ensures
        match r {
            Ok(i) => i < v@.len() && v@[i as int].0@ == k@,
            Err(i) => {
                &&& i <= v@.len()
                &&& forall|j: int| 0 <= j < i ==> seq_lt(#[trigger] keys_view(v@)[j].0, k@)
                &&& i < v@.len() ==> seq_lt(k@, keys_view(v@)[i as int].0)
                &&& !has_key(keys_view(v@), k@)
            },
        },
{
    let ghost s = keys_view(v@);
    let mut i: usize = 0;
    while i < v.len()
        invariant
            0 <= i <= v@.len(),
            s == keys_view(v@),
            keys_sorted(s),
            forall|j: int| 0 <= j < i ==> seq_lt(#[trigger] s[j].0, k@),
        decreases v@.len() - i,
    {
        assert(s[i as int].0 == v@[i as int].0@);
        if str_eq(v[i].0.as_str(), k) {
            return Ok(i);
        }
        if !str_lt(v[i].0.as_str(), k) {
            proof {
                crate::text::lemma_seq_lt_total(s[i as int].0, k@);
                assert forall|j: int| 0 <= j < s.len() implies (#[trigger] s[j]).0 != k@ by {
                    if j < i {
                        crate::text::lemma_seq_lt_irreflexive(k@);
                    } else if j > i {
                        crate::text::lemma_seq_lt_transitive(k@, s[i as int].0, s[j].0);
                        crate::text::lemma_seq_lt_irreflexive(k@);
                    }
                }
            }
            return Err(i);
        }
        i += 1;
    }
    proof {
        assert forall|j: int| 0 <= j < s.len() implies (#[trigger] s[j]).0 != k@ by {
            crate::text::lemma_seq_lt_irreflexive(k@);
        }
    }
    Err(i)
}

} // verus!
