//! Key-ordered records modelled as sequences of `(key, value)` pairs, where a
//! lookup finds the first pair with the key and an upsert overwrites it.

use vstd::prelude::*;
use crate::text::{lemma_lex_asymmetric, lemma_lex_irreflexive, lemma_lex_total, lemma_lex_transitive, less_than, lex_lt};
use crate::types::{CreatedPollsEntry, NominationEntry, ParticipantEntry, RankingEntry};

verus! {

/// Some pair of `s` has key `k`.
pub open spec fn has_key<V>(s: Seq<(Seq<char>, V)>, k: Seq<char>) -> bool {
    exists|i: int| 0 <= i < s.len() && #[trigger] s[i].0 == k
}

/// `i` is the position of the first pair of `s` with key `k`.
pub open spec fn first_with_key<V>(s: Seq<(Seq<char>, V)>, k: Seq<char>, i: int) -> bool {
    &&& 0 <= i < s.len()
    &&& s[i].0 == k
    &&& forall|j: int| 0 <= j < i ==> #[trigger] s[j].0 != k
}

/// The position of the first pair of `s` with key `k` (meaningful under `has_key`).
pub open spec fn key_pos<V>(s: Seq<(Seq<char>, V)>, k: Seq<char>) -> int {
    choose|i: int| first_with_key(s, k, i)
}

/// No two pairs of `s` share a key.
pub open spec fn unique_keys<V>(s: Seq<(Seq<char>, V)>) -> bool {
    forall|i: int, j: int|
        0 <= i < s.len() && 0 <= j < s.len() && #[trigger] s[i].0 == #[trigger] s[j].0 ==> i == j
}

/// There is exactly one first position, and `key_pos` names it.
pub proof fn lemma_first_unique<V>(s: Seq<(Seq<char>, V)>, k: Seq<char>, i: int)
    requires
        first_with_key(s, k, i),
    ensures
        has_key(s, k),
        key_pos(s, k) == i,
{
    let p = key_pos(s, k);
    assert(first_with_key(s, k, p));
    if p < i {
        assert(s[p].0 != k);
    } else if i < p {
        assert(s[i].0 != k);
    }
}

/// Under unique keys any pair with key `k` is the first one.
pub proof fn lemma_unique_first<V>(s: Seq<(Seq<char>, V)>, k: Seq<char>, i: int)
    requires
        unique_keys(s),
        0 <= i < s.len(),
        s[i].0 == k,
    ensures
        first_with_key(s, k, i),
        key_pos(s, k) == i,
{
    assert forall|j: int| 0 <= j < i implies #[trigger] s[j].0 != k by {
        if s[j].0 == k {
            assert(s[j].0 == s[i].0);
        }
    }
    lemma_first_unique(s, k, i);
}

/// Keys strictly ascend in lexicographic order, as in a key-ordered map.
pub open spec fn sorted_keys<V>(s: Seq<(Seq<char>, V)>) -> bool {
    forall|i: int, j: int| 0 <= i < j < s.len() ==> lex_lt(#[trigger] s[i].0, #[trigger] s[j].0)
}

/// Where a new key `k` goes: before the first pair whose key is greater.
pub open spec fn insert_pos<V>(s: Seq<(Seq<char>, V)>, k: Seq<char>) -> int
    decreases s.len(),
{
    if s.len() == 0 {
        0
    } else if lex_lt(k, s[0].0) {
        0
    } else {
        1 + insert_pos(s.drop_first(), k)
    }
}

/// `s` with the value under `k` overwritten, or `(k, v)` inserted at its place
/// in key order if `k` is new.
pub open spec fn upsert<V>(s: Seq<(Seq<char>, V)>, k: Seq<char>, v: V) -> Seq<(Seq<char>, V)> {
    if has_key(s, k) {
        s.update(key_pos(s, k), (k, v))
    } else {
        s.insert(insert_pos(s, k), (k, v))
    }
}

pub proof fn lemma_insert_pos<V>(s: Seq<(Seq<char>, V)>, k: Seq<char>)
    ensures
        0 <= insert_pos(s, k) <= s.len(),
        forall|j: int| 0 <= j < insert_pos(s, k) ==> !lex_lt(k, #[trigger] s[j].0),
        insert_pos(s, k) < s.len() ==> lex_lt(k, s[insert_pos(s, k)].0),
    decreases s.len(),
{
    if s.len() > 0 && !lex_lt(k, s[0].0) {
        let t = s.drop_first();
        lemma_insert_pos(t, k);
        assert forall|j: int| 0 <= j < insert_pos(s, k) implies !lex_lt(k, #[trigger] s[j].0) by {
            if j > 0 {
                assert(s[j] == t[j - 1]);
            }
        }
        if insert_pos(s, k) < s.len() {
            assert(s[insert_pos(s, k)] == t[insert_pos(t, k)]);
        }
    }
}

/// Sorted keys are unique keys.
pub proof fn lemma_sorted_unique<V>(s: Seq<(Seq<char>, V)>)
    requires
        sorted_keys(s),
    ensures
        unique_keys(s),
{
    assert forall|i: int, j: int|
        0 <= i < s.len() && 0 <= j < s.len() && #[trigger] s[i].0 == #[trigger] s[j].0 implies i == j by {
        if i < j {
            assert(lex_lt(s[i].0, s[j].0));
            lemma_lex_irreflexive(s[i].0);
        } else if j < i {
            assert(lex_lt(s[j].0, s[i].0));
            lemma_lex_irreflexive(s[i].0);
        }
    }
}

/// An upsert keeps keys in ascending order, and the key is then present.
pub proof fn lemma_upsert_sorted<V>(s: Seq<(Seq<char>, V)>, k: Seq<char>, v: V)
    requires
        sorted_keys(s),
    ensures
        sorted_keys(upsert(s, k, v)),
        has_key(upsert(s, k, v), k),
        upsert(s, k, v).len() == s.len() + if has_key(s, k) { 0int } else { 1int },
{
    let t = upsert(s, k, v);
    lemma_sorted_unique(s);
    if has_key(s, k) {
        let i = choose|i: int| 0 <= i < s.len() && #[trigger] s[i].0 == k;
        lemma_unique_first(s, k, i);
        assert(t[i].0 == k);
        assert forall|a: int, b: int| 0 <= a < b < t.len() implies lex_lt(#[trigger] t[a].0, #[trigger] t[b].0) by {
            assert(t[a].0 == s[a].0 && t[b].0 == s[b].0);
        }
    } else {
        let p = insert_pos(s, k);
        lemma_insert_pos(s, k);
        assert(t[p].0 == k);
        assert forall|a: int, b: int| 0 <= a < b < t.len() implies lex_lt(#[trigger] t[a].0, #[trigger] t[b].0) by {
            if b < p {
                assert(t[a] == s[a] && t[b] == s[b]);
            } else if b == p {
                assert(t[a] == s[a]);
                assert(s[a].0 != k);
                assert(!lex_lt(k, s[a].0));
                lemma_lex_total(s[a].0, k);
            } else if a < p {
                assert(t[a] == s[a] && t[b] == s[b - 1]);
            } else if a == p {
                assert(t[b] == s[b - 1]);
                if b - 1 > p {
                    assert(lex_lt(s[p].0, s[b - 1].0));
                    lemma_lex_transitive(k, s[p].0, s[b - 1].0);
                }
            } else {
                assert(t[a] == s[a - 1] && t[b] == s[b - 1]);
            }
        }
    }
}

/// Two key-sorted sequences holding the same pairs are equal.
pub proof fn lemma_sorted_same_pairs<V>(s1: Seq<(Seq<char>, V)>, s2: Seq<(Seq<char>, V)>)
    requires
        sorted_keys(s1),
        sorted_keys(s2),
        forall|x: (Seq<char>, V)| s1.contains(x) == s2.contains(x),
    ensures
        s1 == s2,
    decreases s1.len(),
{
    if s1.len() == 0 {
        if s2.len() > 0 {
            assert(s2.contains(s2[0]));
        }
        assert(s1 =~= s2);
    } else {
        assert(s1.contains(s1[0]));
        assert(s2.contains(s2[0]));
        let j = choose|j: int| 0 <= j < s2.len() && s2[j] == s1[0];
        let i = choose|i: int| 0 <= i < s1.len() && s1[i] == s2[0];
        if i > 0 && j > 0 {
            assert(lex_lt(s1[0].0, s1[i].0));
            assert(lex_lt(s2[0].0, s2[j].0));
            lemma_lex_asymmetric(s1[0].0, s2[0].0);
        }
        assert(s1[0] == s2[0]);
        let t1 = s1.drop_first();
        let t2 = s2.drop_first();
        assert forall|x: (Seq<char>, V)| t1.contains(x) == t2.contains(x) by {
            if t1.contains(x) {
                let a = choose|a: int| 0 <= a < t1.len() && t1[a] == x;
                assert(s1[a + 1] == x && s1.contains(x));
                let b = choose|b: int| 0 <= b < s2.len() && s2[b] == x;
                if b == 0 {
                    assert(lex_lt(s1[0].0, s1[a + 1].0));
                    lemma_lex_irreflexive(x.0);
                }
                assert(t2[b - 1] == x);
            }
            if t2.contains(x) {
                let a = choose|a: int| 0 <= a < t2.len() && t2[a] == x;
                assert(s2[a + 1] == x && s2.contains(x));
                let b = choose|b: int| 0 <= b < s1.len() && s1[b] == x;
                if b == 0 {
                    assert(lex_lt(s2[0].0, s2[a + 1].0));
                    lemma_lex_irreflexive(x.0);
                }
                assert(t1[b - 1] == x);
            }
        }
        assert(sorted_keys(t1)) by {
            assert forall|a: int, b: int| 0 <= a < b < t1.len() implies lex_lt(#[trigger] t1[a].0, #[trigger] t1[b].0) by {
                assert(t1[a] == s1[a + 1] && t1[b] == s1[b + 1]);
            }
        }
        assert(sorted_keys(t2)) by {
            assert forall|a: int, b: int| 0 <= a < b < t2.len() implies lex_lt(#[trigger] t2[a].0, #[trigger] t2[b].0) by {
                assert(t2[a] == s2[a + 1] && t2[b] == s2[b + 1]);
            }
        }
        lemma_sorted_same_pairs(t1, t2);
        assert(s1 =~= seq![s1[0]] + t1);
        assert(s2 =~= seq![s2[0]] + t2);
    }
}

/// A record stored under a string key.
pub trait KeyedEntry {
    spec fn key_view(&self) -> Seq<char>;

    fn key(&self) -> (r: &String)
        ensures
            r@ == self.key_view(),
    ;
}

impl KeyedEntry for ParticipantEntry {
    open spec fn key_view(&self) -> Seq<char> {
        self.user_id@
    }

    fn key(&self) -> (r: &String) {
        &self.user_id
    }
}

impl KeyedEntry for RankingEntry {
    open spec fn key_view(&self) -> Seq<char> {
        self.user_id@
    }

    fn key(&self) -> (r: &String) {
        &self.user_id
    }
}

impl KeyedEntry for NominationEntry {
    open spec fn key_view(&self) -> Seq<char> {
        self.nomination_id@
    }

    fn key(&self) -> (r: &String) {
        &self.nomination_id
    }
}

impl KeyedEntry for CreatedPollsEntry {
    open spec fn key_view(&self) -> Seq<char> {
        self.user_id@
    }

    fn key(&self) -> (r: &String) {
        &self.user_id
    }
}

/// The position of the first entry with key `k`, if any.
pub fn find_key<T: KeyedEntry>(v: &Vec<T>, k: &String) -> (r: Option<usize>)
    ensures
        match r {
            Some(i) => i < v@.len() && v@[i as int].key_view() == k@ && forall|j: int|
                0 <= j < i ==> (#[trigger] v@[j]).key_view() != k@,
            None => forall|j: int| 0 <= j < v@.len() ==> (#[trigger] v@[j]).key_view() != k@,
        },
{
    let mut i: usize = 0;
    while i < v.len()
        invariant
            i <= v@.len(),
            forall|j: int| 0 <= j < i ==> (#[trigger] v@[j]).key_view() != k@,
        decreases v@.len() - i,
    {
        if *v[i].key() == *k {
            return Some(i);
        }
        i = i + 1;
    }
    None
}

/// The position before the first entry whose key is greater than `k`.
pub fn insert_position<T: KeyedEntry>(v: &Vec<T>, k: &String) -> (p: usize)
    ensures
        p <= v@.len(),
        forall|j: int| 0 <= j < p ==> !lex_lt(k@, (#[trigger] v@[j]).key_view()),
        p < v@.len() ==> lex_lt(k@, v@[p as int].key_view()),
{
    let mut i: usize = 0;
    while i < v.len()
        invariant
            i <= v@.len(),
            forall|j: int| 0 <= j < i ==> !lex_lt(k@, (#[trigger] v@[j]).key_view()),
        decreases v@.len() - i,
    {
        if less_than(k, v[i].key()) {
            return i;
        }
        i = i + 1;
    }
    i
}

/// `insert_pos` is fixed by where the first greater key stands.
pub proof fn lemma_insert_pos_at<V>(s: Seq<(Seq<char>, V)>, k: Seq<char>, p: int)
    requires
        0 <= p <= s.len(),
        forall|j: int| 0 <= j < p ==> !lex_lt(k, #[trigger] s[j].0),
        p < s.len() ==> lex_lt(k, s[p].0),
    ensures
        insert_pos(s, k) == p,
    decreases s.len(),
{
    if s.len() > 0 && p > 0 {
        let t = s.drop_first();
        assert(!lex_lt(k, s[0].0));
        assert forall|j: int| 0 <= j < p - 1 implies !lex_lt(k, #[trigger] t[j].0) by {
            assert(t[j] == s[j + 1]);
        }
        if p < s.len() {
            assert(t[p - 1] == s[p]);
        }
        lemma_insert_pos_at(t, k, p - 1);
    }
}

} // verus!
