//! The tally engine: Borda-style scores summed per nomination, reported by
//! descending score with ties in ascending identifier order.

use vstd::prelude::*;
use crate::keyed::{first_with_key, has_key, key_pos, lemma_first_unique, lemma_sorted_same_pairs, sorted_keys};
use crate::text::{
    lemma_lex_asymmetric, lemma_lex_irreflexive, lemma_lex_total, lemma_lex_transitive, less_than,
    lex_lt,
};
use crate::types::{NominationEntry, RankingEntry, ResultEntry};

verus! {

/// Rankings as `(voter, nomination identifiers)` pairs.
pub type RankingsView = Seq<(Seq<char>, Seq<Seq<char>>)>;

/// Nominations as `(identifier, (nominator, text))` pairs.
pub type NominationsView = Seq<(Seq<char>, (Seq<char>, Seq<char>))>;

/// A result line: `(identifier, text, score)`.
pub type ResultView = (Seq<char>, Seq<char>, u64);

/// Points for the choice at position `j`: `votes_per_voter - j`, never below zero.
pub open spec fn points(vpv: nat, j: int) -> nat {
    if j < vpv {
        (vpv - j) as nat
    } else {
        0
    }
}

/// Points that one ranking gives to nomination `k`.
pub open spec fn ranking_score(ids: Seq<Seq<char>>, k: Seq<char>, vpv: nat) -> nat
    decreases ids.len(),
{
    if ids.len() == 0 {
        0
    } else {
        ranking_score(ids.drop_last(), k, vpv) + if ids.last() == k {
            points(vpv, ids.len() - 1)
        } else {
            0
        }
    }
}

/// Points that all rankings give to nomination `k`.
pub open spec fn total_score(rs: RankingsView, k: Seq<char>, vpv: nat) -> nat
    decreases rs.len(),
{
    if rs.len() == 0 {
        0
    } else {
        total_score(rs.drop_last(), k, vpv) + ranking_score(rs.last().1, k, vpv)
    }
}

/// A score as stored: saturated at `u64::MAX`.
pub open spec fn capped(n: nat) -> u64 {
    if n > u64::MAX {
        u64::MAX
    } else {
        n as u64
    }
}

/// Some ranking names `k`.
pub open spec fn ranked(rs: RankingsView, k: Seq<char>) -> bool {
    exists|i: int, j: int| 0 <= i < rs.len() && 0 <= j < rs[i].1.len() && #[trigger] rs[i].1[j] == k
}

/// The text shown for a nomination that cannot be found.
pub open spec fn unknown_text() -> Seq<char> {
    seq!['U', 'n', 'k', 'n', 'o', 'w', 'n']
}

/// The text of nomination `k`, or the unknown text.
pub open spec fn text_of(noms: NominationsView, k: Seq<char>) -> Seq<char> {
    if has_key(noms, k) {
        noms[key_pos(noms, k)].1.1
    } else {
        unknown_text()
    }
}

/// The result line of nomination `k`.
pub open spec fn entry_for(rs: RankingsView, noms: NominationsView, vpv: nat, k: Seq<char>) -> ResultView {
    (k, text_of(noms, k), capped(total_score(rs, k, vpv)))
}

/// `a` is reported before `b`: higher score first, then smaller identifier.
pub open spec fn ranks_before(a: ResultView, b: ResultView) -> bool {
    a.2 > b.2 || (a.2 == b.2 && lex_lt(a.0, b.0))
}

pub open spec fn sorted_results(r: Seq<ResultView>) -> bool {
    forall|i: int, j: int| 0 <= i < j < r.len() ==> ranks_before(#[trigger] r[i], #[trigger] r[j])
}

/// `r` is the tally: one line per ranked nomination, each with its text and
/// score, in reporting order.
pub open spec fn is_tally(rs: RankingsView, noms: NominationsView, vpv: nat, r: Seq<ResultView>) -> bool {
    &&& forall|i: int|
        0 <= i < r.len() ==> ranked(rs, (#[trigger] r[i]).0) && r[i] == entry_for(rs, noms, vpv, r[i].0)
    &&& forall|k: Seq<char>|
        ranked(rs, k) ==> exists|i: int| 0 <= i < r.len() && (#[trigger] r[i]).0 == k
    &&& sorted_results(r)
}

/// The tally of the given rankings and nominations.
pub open spec fn tally(rs: RankingsView, noms: NominationsView, vpv: nat) -> Seq<ResultView> {
    choose|r: Seq<ResultView>| is_tally(rs, noms, vpv, r)
}

proof fn lemma_before_irreflexive(a: ResultView)
    ensures
        !ranks_before(a, a),
{
    lemma_lex_irreflexive(a.0);
}

proof fn lemma_before_asymmetric(a: ResultView, b: ResultView)
    requires
        ranks_before(a, b),
    ensures
        !ranks_before(b, a),
{
    if a.2 == b.2 {
        lemma_lex_asymmetric(a.0, b.0);
    }
}

proof fn lemma_before_transitive(a: ResultView, b: ResultView, c: ResultView)
    requires
        ranks_before(a, b),
        ranks_before(b, c),
    ensures
        ranks_before(a, c),
{
    if a.2 == b.2 && b.2 == c.2 {
        lemma_lex_transitive(a.0, b.0, c.0);
    }
}

proof fn lemma_before_total(a: ResultView, b: ResultView)
    requires
        a.0 != b.0,
    ensures
        ranks_before(a, b) || ranks_before(b, a),
{
    lemma_lex_total(a.0, b.0);
}

/// Two sequences sorted in reporting order with the same elements are equal.
proof fn lemma_sorted_same_elements(r1: Seq<ResultView>, r2: Seq<ResultView>)
    requires
        sorted_results(r1),
        sorted_results(r2),
        forall|x: ResultView| r1.contains(x) == r2.contains(x),
    ensures
        r1 == r2,
    decreases r1.len(),
{
    if r1.len() == 0 {
        if r2.len() > 0 {
            assert(r2.contains(r2[0]));
        }
        assert(r1 =~= r2);
    } else {
        assert(r1.contains(r1[0]));
        let j = choose|j: int| 0 <= j < r2.len() && r2[j] == r1[0];
        assert(r2.contains(r2[0]));
        let i = choose|i: int| 0 <= i < r1.len() && r1[i] == r2[0];
        if i > 0 && j > 0 {
            assert(ranks_before(r1[0], r1[i]));
            assert(ranks_before(r2[0], r2[j]));
            lemma_before_asymmetric(r1[0], r2[0]);
        }
        assert(r1[0] == r2[0]);
        let t1 = r1.drop_first();
        let t2 = r2.drop_first();
        assert forall|x: ResultView| t1.contains(x) == t2.contains(x) by {
            if t1.contains(x) {
                let a = choose|a: int| 0 <= a < t1.len() && t1[a] == x;
                assert(r1[a + 1] == x);
                assert(r1.contains(x));
                let b = choose|b: int| 0 <= b < r2.len() && r2[b] == x;
                if b == 0 {
                    assert(ranks_before(r1[0], r1[a + 1]));
                    lemma_before_irreflexive(x);
                }
                assert(t2[b - 1] == x);
            }
            if t2.contains(x) {
                let a = choose|a: int| 0 <= a < t2.len() && t2[a] == x;
                assert(r2[a + 1] == x);
                assert(r2.contains(x));
                let b = choose|b: int| 0 <= b < r1.len() && r1[b] == x;
                if b == 0 {
                    assert(ranks_before(r2[0], r2[a + 1]));
                    lemma_before_irreflexive(x);
                }
                assert(t1[b - 1] == x);
            }
        }
        assert(sorted_results(t1)) by {
            assert forall|a: int, b: int| 0 <= a < b < t1.len() implies ranks_before(
                #[trigger] t1[a],
                #[trigger] t1[b],
            ) by {
                assert(t1[a] == r1[a + 1] && t1[b] == r1[b + 1]);
            }
        }
        assert(sorted_results(t2)) by {
            assert forall|a: int, b: int| 0 <= a < b < t2.len() implies ranks_before(
                #[trigger] t2[a],
                #[trigger] t2[b],
            ) by {
                assert(t2[a] == r2[a + 1] && t2[b] == r2[b + 1]);
            }
        }
        lemma_sorted_same_elements(t1, t2);
        assert(r1 =~= seq![r1[0]] + t1);
        assert(r2 =~= seq![r2[0]] + t2);
    }
}

/// Tally determinism: the rankings, nominations and points per voter fix the
/// tally line for line, so recomputing it from the same inputs yields the
/// same ordered result.
pub proof fn lemma_tally_deterministic(
    rs: RankingsView,
    noms: NominationsView,
    vpv: nat,
    r1: Seq<ResultView>,
    r2: Seq<ResultView>,
)
    requires
        is_tally(rs, noms, vpv, r1),
        is_tally(rs, noms, vpv, r2),
    ensures
        r1 == r2,
{
    assert forall|x: ResultView| r1.contains(x) == r2.contains(x) by {
        if r1.contains(x) {
            let a = choose|a: int| 0 <= a < r1.len() && r1[a] == x;
            assert(ranked(rs, r1[a].0));
            let b = choose|b: int| 0 <= b < r2.len() && (#[trigger] r2[b]).0 == x.0;
            assert(r2[b] == x);
        }
        if r2.contains(x) {
            let a = choose|a: int| 0 <= a < r2.len() && r2[a] == x;
            assert(ranked(rs, r2[a].0));
            let b = choose|b: int| 0 <= b < r1.len() && (#[trigger] r1[b]).0 == x.0;
            assert(r1[b] == x);
        }
    }
    lemma_sorted_same_elements(r1, r2);
}

/// Each line's score is the sum, over all rankings and every position at
/// which the ranking names the nomination, of `votes_per_voter - position`
/// (never below zero), whenever that sum fits in a `u64`.
pub proof fn lemma_tally_scores(
    rs: RankingsView,
    noms: NominationsView,
    vpv: nat,
    r: Seq<ResultView>,
    i: int,
)
    requires
        is_tally(rs, noms, vpv, r),
        0 <= i < r.len(),
        total_score(rs, r[i].0, vpv) <= u64::MAX,
    ensures
        r[i].2 as nat == total_score(rs, r[i].0, vpv),
{
    assert(r[i] == entry_for(rs, noms, vpv, r[i].0));
}

/// The tally does not depend on the order in which voters voted: rankings
/// are kept as a key-ordered map, so two of them holding the same
/// `(voter, ranking)` pairs are the same sequence and give the same tally.
pub proof fn lemma_tally_vote_order_independent(
    rs1: RankingsView,
    rs2: RankingsView,
    noms: NominationsView,
    vpv: nat,
)
    requires
        sorted_keys(rs1),
        sorted_keys(rs2),
        forall|x: (Seq<char>, Seq<Seq<char>>)| rs1.contains(x) == rs2.contains(x),
    ensures
        rs1 == rs2,
        tally(rs1, noms, vpv) == tally(rs2, noms, vpv),
{
    lemma_sorted_same_pairs(rs1, rs2);
}

/// Tie-break: lines of equal score stand in ascending identifier order.
pub proof fn lemma_tally_ties_ascending(
    rs: RankingsView,
    noms: NominationsView,
    vpv: nat,
    r: Seq<ResultView>,
    i: int,
    j: int,
)
    requires
        is_tally(rs, noms, vpv, r),
        0 <= i < j < r.len(),
        r[i].2 == r[j].2,
    ensures
        lex_lt(r[i].0, r[j].0),
{
    assert(ranks_before(r[i], r[j]));
}

fn contains_id(ids: &Vec<String>, k: &String) -> (r: bool)
    ensures
        r == exists|m: int| 0 <= m < ids@.len() && (#[trigger] ids@[m])@ == k@,
{
    let mut m: usize = 0;
    while m < ids.len()
        invariant
            m <= ids@.len(),
            forall|q: int| 0 <= q < m ==> (#[trigger] ids@[q])@ != k@,
        decreases ids@.len() - m,
    {
        if ids[m] == *k {
            return true;
        }
        m = m + 1;
    }
    false
}

/// Some element of `ids` views as `k`.
pub open spec fn id_in(ids: Seq<String>, k: Seq<char>) -> bool {
    exists|m: int| 0 <= m < ids.len() && ids[m]@ == k
}

/// The distinct nomination identifiers that the rankings name.
fn collect_ids(rankings: &Vec<RankingEntry>) -> (ids: Vec<String>)
    ensures
        forall|a: int, b: int| 0 <= a < b < ids@.len() ==> (#[trigger] ids@[a])@ != (#[trigger] ids@[b])@,
        forall|a: int| 0 <= a < ids@.len() ==> ranked(rankings.deep_view(), (#[trigger] ids@[a])@),
        forall|k: Seq<char>|
            ranked(rankings.deep_view(), k) ==> exists|a: int| 0 <= a < ids@.len() && (#[trigger] ids@[a])@ == k,
{
    let ghost rs = rankings.deep_view();
    let mut ids: Vec<String> = Vec::new();
    let mut i: usize = 0;
    while i < rankings.len()
        invariant
            i <= rankings@.len(),
            rs == rankings.deep_view(),
            forall|a: int, b: int| 0 <= a < b < ids@.len() ==> (#[trigger] ids@[a])@ != (#[trigger] ids@[b])@,
            forall|a: int| 0 <= a < ids@.len() ==> ranked(rs, (#[trigger] ids@[a])@),
            forall|a: int, b: int| 0 <= a < i && 0 <= b < rs[a].1.len() ==> id_in(ids@, #[trigger] rs[a].1[b]),
        decreases rankings@.len() - i,
    {
        let row = &rankings[i].nomination_ids;
        let mut j: usize = 0;
        while j < row.len()
            invariant
                i < rankings@.len(),
                j <= row@.len(),
                rs == rankings.deep_view(),
                row == rankings@[i as int].nomination_ids,
                forall|a: int, b: int| 0 <= a < b < ids@.len() ==> (#[trigger] ids@[a])@ != (#[trigger] ids@[b])@,
                forall|a: int| 0 <= a < ids@.len() ==> ranked(rs, (#[trigger] ids@[a])@),
                forall|a: int, b: int| 0 <= a < i && 0 <= b < rs[a].1.len() ==> id_in(ids@, #[trigger] rs[a].1[b]),
                forall|b: int| 0 <= b < j ==> id_in(ids@, #[trigger] rs[i as int].1[b]),
            decreases row@.len() - j,
        {
            let k = &row[j];
            assert(rs[i as int].1[j as int] == k@);
            if !contains_id(&ids, k) {
                let ghost before = ids@;
                ids.push(k.clone());
                assert(ranked(rs, k@));
                assert(ids@[ids@.len() - 1]@ == rs[i as int].1[j as int]);
                assert forall|x: Seq<char>| id_in(before, x) implies id_in(ids@, x) by {
                    let m = choose|m: int| 0 <= m < before.len() && before[m]@ == x;
                    assert(ids@[m] == before[m]);
                }
            }
            assert(id_in(ids@, rs[i as int].1[j as int]));
            j = j + 1;
        }
        i = i + 1;
    }
    proof {
        assert forall|k: Seq<char>| ranked(rs, k) implies exists|a: int|
            0 <= a < ids@.len() && (#[trigger] ids@[a])@ == k by {
            let (a, b) = choose|a: int, b: int| 0 <= a < rs.len() && 0 <= b < rs[a].1.len() && #[trigger] rs[a].1[b] == k;
            assert(id_in(ids@, rs[a].1[b]));
        }
    }
    ids
}

proof fn lemma_capped_add(x: nat, p: nat)
    ensures
        capped(x + p) == (if capped(x) + p > u64::MAX { u64::MAX as int } else { capped(x) + p }),
{
}

/// The points that all rankings give to nomination `k`, saturated.
fn score_of(rankings: &Vec<RankingEntry>, k: &String, vpv: u32) -> (r: u64)
    ensures
        r == capped(total_score(rankings.deep_view(), k@, vpv as nat)),
{
    let ghost rs = rankings.deep_view();
    let mut acc: u64 = 0;
    let mut i: usize = 0;
    while i < rankings.len()
        invariant
            i <= rankings@.len(),
            rs == rankings.deep_view(),
            acc == capped(total_score(rs.take(i as int), k@, vpv as nat)),
        decreases rankings@.len() - i,
    {
        let row = &rankings[i].nomination_ids;
        let ghost before = total_score(rs.take(i as int), k@, vpv as nat);
        let mut j: usize = 0;
        assert(rs[i as int].1.take(0) =~= Seq::<Seq<char>>::empty());
        while j < row.len()
            invariant
                i < rankings@.len(),
                j <= row@.len(),
                rs == rankings.deep_view(),
                row == rankings@[i as int].nomination_ids,
                acc == capped(before + ranking_score(rs[i as int].1.take(j as int), k@, vpv as nat)),
            decreases row@.len() - j,
        {
            let ghost ids = rs[i as int].1;
            let ghost old_part = ranking_score(ids.take(j as int), k@, vpv as nat);
            assert(ids.take(j + 1).drop_last() =~= ids.take(j as int));
            if row[j] == *k {
                let p: u64 = (vpv as u64).saturating_sub(j as u64);
                proof {
                    lemma_capped_add(before + old_part, p as nat);
                }
                acc = acc.saturating_add(p);
            }
            j = j + 1;
        }
        assert(rs[i as int].1.take(row@.len() as int) =~= rs[i as int].1);
        assert(rs.take(i + 1).drop_last() =~= rs.take(i as int));
        i = i + 1;
    }
    assert(rs.take(rankings@.len() as int) =~= rs);
    acc
}

/// The text of nomination `k`, or "Unknown" if no nomination has that identifier.
fn text_for(nominations: &Vec<NominationEntry>, k: &String) -> (r: String)
    ensures
        r@ == text_of(nominations.deep_view(), k@),
{
    let ghost ns = nominations.deep_view();
    let mut i: usize = 0;
    while i < nominations.len()
        invariant
            i <= nominations@.len(),
            ns == nominations.deep_view(),
            forall|q: int| 0 <= q < i ==> (#[trigger] ns[q]).0 != k@,
        decreases nominations@.len() - i,
    {
        if nominations[i].nomination_id == *k {
            proof {
                assert(first_with_key(ns, k@, i as int));
                lemma_first_unique(ns, k@, i as int);
            }
            return nominations[i].text.clone();
        }
        i = i + 1;
    }
    let r = String::from_str("Unknown");
    proof {
        reveal_strlit("Unknown");
        assert(r@ =~= unknown_text());
    }
    r
}

/// Inserts `e` at its place in reporting order.
fn insert_sorted(out: &mut Vec<ResultEntry>, e: ResultEntry)
    requires
        sorted_results(old(out).deep_view()),
        forall|q: int| 0 <= q < old(out)@.len() ==> (#[trigger] old(out)@[q]).nomination_id@ != e.nomination_id@,
    ensures
        sorted_results(final(out).deep_view()),
        forall|x: ResultView| final(out).deep_view().contains(x) == (old(out).deep_view().contains(x) || x == e.deep_view()),
{
    let ghost ov = old(out).deep_view();
    let ghost ev = e.deep_view();
    let mut p: usize = 0;
    while p < out.len()
        invariant
            p <= out@.len(),
            out.deep_view() == ov,
            ev == e.deep_view(),
            forall|q: int| 0 <= q < p ==> ranks_before(#[trigger] ov[q], ev),
            forall|q: int| 0 <= q < ov.len() ==> (#[trigger] ov[q]).0 != ev.0,
        ensures
            p <= ov.len(),
            forall|q: int| 0 <= q < p ==> ranks_before(#[trigger] ov[q], ev),
            p < ov.len() ==> ranks_before(ev, ov[p as int]),
        decreases out@.len() - p,
    {
        let r = &out[p];
        let first = e.score > r.score || (e.score == r.score && less_than(&e.nomination_id, &r.nomination_id));
        if first {
            break;
        }
        proof {
            lemma_before_total(ov[p as int], ev);
        }
        p = p + 1;
    }
    proof {
        if p < ov.len() {
            assert(ranks_before(ev, ov[p as int]));
            assert forall|q: int| p < q < ov.len() implies ranks_before(ev, #[trigger] ov[q]) by {
                assert(ranks_before(ov[p as int], ov[q]));
                lemma_before_transitive(ev, ov[p as int], ov[q]);
            }
        }
    }
    out.insert(p, e);
    proof {
        let nv = out.deep_view();
        assert(nv =~= ov.insert(p as int, ev));
        assert forall|a: int, b: int| 0 <= a < b < nv.len() implies ranks_before(#[trigger] nv[a], #[trigger] nv[b]) by {
            if b < p {
            } else if b == p {
            } else if a < p {
                assert(nv[b] == ov[b - 1]);
                assert(ranks_before(ov[a], ev));
                if b - 1 > p {
                    assert(ranks_before(ev, ov[b - 1]));
                }
                lemma_before_transitive(ov[a], ev, ov[b - 1]);
            } else if a == p {
            } else {
                assert(nv[a] == ov[a - 1] && nv[b] == ov[b - 1]);
            }
        }
        assert forall|x: ResultView| nv.contains(x) == (ov.contains(x) || x == ev) by {
            if nv.contains(x) {
                let a = choose|a: int| 0 <= a < nv.len() && nv[a] == x;
                if a < p {
                    assert(ov[a] == x);
                } else if a > p {
                    assert(ov[a - 1] == x);
                }
            }
            if ov.contains(x) {
                let a = choose|a: int| 0 <= a < ov.len() && ov[a] == x;
                if a < p {
                    assert(nv[a] == x);
                } else {
                    assert(nv[a + 1] == x);
                }
            }
            if x == ev {
                assert(nv[p as int] == x);
            }
        }
    }
}

/// Computes the tally of `rankings`: for each nomination that some ranking
/// names, its text and its score, where a choice at position `j` earns
/// `votes_per_voter - j` points (none at or past `votes_per_voter`); lines
/// run by descending score, ties by ascending identifier.
pub fn compute_results(
    rankings: &Vec<RankingEntry>,
    nominations: &Vec<NominationEntry>,
    votes_per_voter: u32,
) -> (r: Vec<ResultEntry>)
    ensures
        is_tally(rankings.deep_view(), nominations.deep_view(), votes_per_voter as nat, r.deep_view()),
        r.deep_view() == tally(rankings.deep_view(), nominations.deep_view(), votes_per_voter as nat),
{
    let ghost rs = rankings.deep_view();
    let ghost ns = nominations.deep_view();
    let ghost vpv = votes_per_voter as nat;
    let ids = collect_ids(rankings);
    let mut out: Vec<ResultEntry> = Vec::new();
    let mut m: usize = 0;
    while m < ids.len()
        invariant
            m <= ids@.len(),
            rs == rankings.deep_view(),
            ns == nominations.deep_view(),
            vpv == votes_per_voter as nat,
            forall|a: int, b: int| 0 <= a < b < ids@.len() ==> (#[trigger] ids@[a])@ != (#[trigger] ids@[b])@,
            forall|a: int| 0 <= a < ids@.len() ==> ranked(rs, (#[trigger] ids@[a])@),
            sorted_results(out.deep_view()),
            forall|x: ResultView|
                out.deep_view().contains(x) == exists|a: int|
                    0 <= a < m && x == entry_for(rs, ns, vpv, (#[trigger] ids@[a])@),
        decreases ids@.len() - m,
    {
        let k = &ids[m];
        let score = score_of(rankings, k, votes_per_voter);
        let text = text_for(nominations, k);
        let e = ResultEntry { nomination_id: k.clone(), nomination_text: text, score };
        assert(e.deep_view() == entry_for(rs, ns, vpv, ids@[m as int]@));
        proof {
            let ov = out.deep_view();
            assert forall|q: int| 0 <= q < out@.len() implies (#[trigger] out@[q]).nomination_id@ != e.nomination_id@ by {
                assert(ov[q] == out@[q].deep_view());
                assert(ov.contains(ov[q]));
                let a = choose|a: int| 0 <= a < m && ov[q] == entry_for(rs, ns, vpv, (#[trigger] ids@[a])@);
                assert(ids@[a]@ != ids@[m as int]@);
            }
        }
        let ghost ov = out.deep_view();
        insert_sorted(&mut out, e);
        proof {
            assert forall|x: ResultView|
                out.deep_view().contains(x) == exists|a: int|
                    0 <= a < m + 1 && x == entry_for(rs, ns, vpv, (#[trigger] ids@[a])@) by {
                if exists|a: int| 0 <= a < m + 1 && x == entry_for(rs, ns, vpv, (#[trigger] ids@[a])@) {
                    let a = choose|a: int| 0 <= a < m + 1 && x == entry_for(rs, ns, vpv, (#[trigger] ids@[a])@);
                    if a < m {
                        assert(ov.contains(x));
                    }
                }
            }
        }
        m = m + 1;
    }
    proof {
        let r = out.deep_view();
        assert forall|i: int| 0 <= i < r.len() implies ranked(rs, (#[trigger] r[i]).0) && r[i] == entry_for(rs, ns, vpv, r[i].0) by {
            assert(r.contains(r[i]));
            let a = choose|a: int| 0 <= a < m && r[i] == entry_for(rs, ns, vpv, (#[trigger] ids@[a])@);
        }
        assert forall|k: Seq<char>| ranked(rs, k) implies exists|i: int| 0 <= i < r.len() && (#[trigger] r[i]).0 == k by {
            let a = choose|a: int| 0 <= a < ids@.len() && (#[trigger] ids@[a])@ == k;
            assert(r.contains(entry_for(rs, ns, vpv, ids@[a]@)));
        }
        assert(is_tally(rs, ns, vpv, r));
        lemma_tally_deterministic(rs, ns, vpv, r, tally(rs, ns, vpv));
    }
    out
}

} // verus!
