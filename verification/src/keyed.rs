//! Lists of records keyed by a path string, each key at most once: the
//! representation behind manifests and drift reports.
use vstd::prelude::*;

use crate::text::{lemma_path_order, path_less, path_less_exec, str_eq};

verus! {

pub open spec fn distinct_keys<T>(s: Seq<(String, T)>) -> bool {
    forall|i: int, j: int| 0 <= i < s.len() && 0 <= j < s.len() && i != j ==> s[i].0@ != s[j].0@
}

pub open spec fn seq_has<T>(s: Seq<(String, T)>, k: Seq<char>) -> bool {
    exists|i: int| 0 <= i < s.len() && #[trigger] s[i].0@ == k
}

/// The value recorded for `k` in a list of records.
pub open spec fn seq_lookup<T>(s: Seq<(String, T)>, k: Seq<char>) -> Option<T> {
    if seq_has(s, k) {
        let i = choose|i: int| 0 <= i < s.len() && #[trigger] s[i].0@ == k;
        Some(s[i].1)
    } else {
        None
    }
}

pub proof fn lemma_seq_lookup_at<T>(s: Seq<(String, T)>, i: int)
    requires
        distinct_keys(s),
        0 <= i < s.len(),
    ensures
        seq_has(s, s[i].0@),
        seq_lookup(s, s[i].0@) == Some(s[i].1),
{
    assert(s[i].0@ == s[i].0@);
}

pub proof fn lemma_seq_lookup_none<T>(s: Seq<(String, T)>, k: Seq<char>)
    requires
        forall|i: int| 0 <= i < s.len() ==> s[i].0@ != k,
    ensures
        !seq_has(s, k),
        seq_lookup(s, k) is None,
{
}

/// The position of `key` among the records, if present.
pub fn find_key<T>(v: &Vec<(String, T)>, key: &str) -> (r: Option<usize>)
    requires
        distinct_keys(v@),
    ensures
        match r {
            Some(i) => i < v@.len() && v@[i as int].0@ == key@ && seq_lookup(v@, key@) == Some(
                v@[i as int].1,
            ),
            None => !seq_has(v@, key@) && seq_lookup(v@, key@) is None,
        },
{
    let mut i: usize = 0;
    while i < v.len()
        invariant
            i <= v@.len(),
            distinct_keys(v@),
            forall|j: int| 0 <= j < i ==> v@[j].0@ != key@,
        decreases v@.len() - i,
    {
        if str_eq(v[i].0.as_str(), key) {
            proof {
                lemma_seq_lookup_at(v@, i as int);
            }
            return Some(i);
        }
        i = i + 1;
    }
    proof {
        lemma_seq_lookup_none(v@, key@);
    }
    None
}

/// The keys ascend in path order.
pub open spec fn sorted_keys<T>(s: Seq<(String, T)>) -> bool {
    forall|i: int, j: int| 0 <= i < j < s.len() ==> path_less(#[trigger] s[i].0@, #[trigger] s[j].0@)
}

pub proof fn lemma_sorted_distinct<T>(s: Seq<(String, T)>)
    requires
        sorted_keys(s),
    ensures
        distinct_keys(s),
{
    assert forall|i: int, j: int| 0 <= i < s.len() && 0 <= j < s.len() && i != j implies s[i].0@ != s[j].0@ by {
        if i < j {
            lemma_path_order(s[i].0@, s[j].0@, s[j].0@);
        } else {
            lemma_path_order(s[j].0@, s[i].0@, s[i].0@);
        }
    }
}

/// Inserts a record with a new key at its place in path order.
pub fn insert_record<T>(v: &mut Vec<(String, T)>, rec: (String, T))
    requires
        sorted_keys(old(v)@),
        !seq_has(old(v)@, rec.0@),
    ensures
        sorted_keys(final(v)@),
        distinct_keys(final(v)@),
        final(v)@.len() == old(v)@.len() + 1,
        forall|k: Seq<char>| #![trigger seq_lookup(final(v)@, k)]
            seq_lookup(final(v)@, k) == if k == rec.0@ {
                Some(rec.1)
            } else {
                seq_lookup(old(v)@, k)
            },
        forall|k: Seq<char>| #![trigger seq_has(final(v)@, k)]
            seq_has(final(v)@, k) <==> (k == rec.0@ || seq_has(old(v)@, k)),
{
    let ghost before = v@;
    let ghost x = rec.0@;
    proof {
        lemma_sorted_distinct(before);
    }
    let mut k: usize = 0;
    while k < v.len() && path_less_exec(v[k].0.as_str(), rec.0.as_str())
        invariant
            k <= v@.len(),
            v@ == before,
            x == rec.0@,
            forall|i: int| 0 <= i < k ==> path_less(before[i].0@, x),
        decreases v@.len() - k,
    {
        k = k + 1;
    }
    proof {
        if k < before.len() {
            assert(before[k as int].0@ != x);
            lemma_path_order(before[k as int].0@, x, x);
            assert(path_less(x, before[k as int].0@));
        }
    }
    v.insert(k, rec);
    proof {
        let after = v@;
        assert(after =~= before.insert(k as int, after[k as int]));
        assert(after[k as int].0@ == x);
        assert forall|i: int, j: int| 0 <= i < j < after.len() implies path_less(#[trigger] after[i].0@, #[trigger] after[j].0@) by {
            if j < k {
                assert(after[i] == before[i] && after[j] == before[j]);
            } else if j == k {
                assert(after[i] == before[i]);
            } else if i < k {
                assert(after[i] == before[i] && after[j] == before[j - 1]);
                if j - 1 > k {
                    assert(path_less(before[k as int].0@, before[j - 1].0@));
                    lemma_path_order(x, before[k as int].0@, before[j - 1].0@);
                }
                lemma_path_order(before[i].0@, x, before[j - 1].0@);
            } else if i == k {
                assert(after[j] == before[j - 1]);
                if j - 1 > k {
                    assert(path_less(before[k as int].0@, before[j - 1].0@));
                    lemma_path_order(x, before[k as int].0@, before[j - 1].0@);
                }
            } else {
                assert(after[i] == before[i - 1] && after[j] == before[j - 1]);
            }
        }
        lemma_sorted_distinct(after);
        assert forall|key: Seq<char>| #![trigger seq_has(after, key)] seq_has(after, key) <==> (key == x || seq_has(
            before,
            key,
        )) by {
            if seq_has(after, key) && key != x {
                let j = choose|j: int| 0 <= j < after.len() && #[trigger] after[j].0@ == key;
                if j < k {
                    assert(before[j].0@ == key);
                } else {
                    assert(j != k);
                    assert(before[j - 1].0@ == key);
                }
            }
            if key == x {
                assert(after[k as int].0@ == key);
            }
            if seq_has(before, key) {
                let j = choose|j: int| 0 <= j < before.len() && #[trigger] before[j].0@ == key;
                if j < k {
                    assert(after[j].0@ == key);
                } else {
                    assert(after[j + 1].0@ == key);
                }
            }
        }
        assert forall|key: Seq<char>| #![trigger seq_lookup(after, key)]
            seq_lookup(after, key) == if key == x { Some(after[k as int].1) } else { seq_lookup(before, key) } by {
            if key == x {
                lemma_seq_lookup_at(after, k as int);
            } else if seq_has(before, key) {
                let j = choose|j: int| 0 <= j < before.len() && #[trigger] before[j].0@ == key;
                lemma_seq_lookup_at(before, j);
                if j < k {
                    assert(after[j] == before[j]);
                    lemma_seq_lookup_at(after, j);
                } else {
                    assert(after[j + 1] == before[j]);
                    lemma_seq_lookup_at(after, j + 1);
                }
            } else {
                assert(!seq_has(after, key));
                lemma_seq_lookup_none(after, key);
            }
        }
    }
}

} // verus!
