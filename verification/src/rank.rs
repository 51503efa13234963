//! The query engine: collecting scored candidates, ranking them with a
//! stable descending sort, and answering search and diagnostic lookups.

use vstd::prelude::*;
use crate::entry::SearchResult;
use crate::index::Index;
use crate::score::entry_score;
use crate::score::score_name;
use crate::text::contains_chars;
use crate::text::has_substring;
use crate::text::lemma_substring_refl;
use crate::text::lower;
use crate::text::lower_of;
use crate::text::normal_of;
use crate::text::normalize;
use crate::text::to_chars;

verus! {

/// The scored candidates of a snapshot for a query: one `(score, position)`
/// pair for every entry that got a score, in snapshot order.  `ql` is the
/// case-folded query, `qn` its normalized form.
pub open spec fn candidates(entries: Seq<SearchResult>, ql: Seq<char>, qn: Seq<char>) -> Seq<
    (i64, int),
>
    decreases entries.len(),
{
    if entries.len() == 0 {
        Seq::empty()
    } else {
        let pre = candidates(entries.drop_last(), ql, qn);
        match entry_score(entries.last().name@, ql, qn) {
            Some(s) => pre.push((s, entries.len() - 1)),
            None => pre,
        }
    }
}

/// Inserts a candidate behind every candidate whose score is at least as
/// high: later candidates never overtake equal scores.
pub open spec fn insert_ranked(s: Seq<(i64, int)>, x: (i64, int)) -> Seq<(i64, int)>
    decreases s.len(),
{
    if s.len() == 0 {
        seq![x]
    } else if s.first().0 >= x.0 {
        seq![s.first()] + insert_ranked(s.drop_first(), x)
    } else {
        seq![x] + s
    }
}

/// The candidates sorted by score, descending, stable with respect to their
/// order of arrival.
pub open spec fn rank(s: Seq<(i64, int)>) -> Seq<(i64, int)>
    decreases s.len(),
{
    if s.len() == 0 {
        Seq::empty()
    } else {
        insert_ranked(rank(s.drop_last()), s.last())
    }
}

/// What a search returns: the empty list for an empty query, otherwise the
/// entries of the ranked candidates, at most the first 8.
pub open spec fn search_spec(entries: Seq<SearchResult>, q: Seq<char>) -> Seq<SearchResult> {
    if q.len() == 0 {
        Seq::empty()
    } else {
        let ql = lower_of(q);
        let qn = normal_of(ql);
        let ranked = rank(candidates(entries, ql, qn));
        let cut = if ranked.len() <= 8 {
            ranked.len() as int
        } else {
            8int
        };
        ranked.take(cut).map_values(|p: (i64, int)| entries[p.1])
    }
}

proof fn lemma_insert_ranked_basic(s: Seq<(i64, int)>, x: (i64, int))
    ensures
        insert_ranked(s, x).len() == s.len() + 1,
        insert_ranked(s, x).contains(x),
        forall|y: (i64, int)| s.contains(y) ==> insert_ranked(s, x).contains(y),
        forall|k: int|
            0 <= k < insert_ranked(s, x).len() ==> insert_ranked(s, x)[k] == x || s.contains(
                insert_ranked(s, x)[k],
            ),
    decreases s.len(),
{
    let r = insert_ranked(s, x);
    if s.len() == 0 {
        assert(r[0] == x);
    } else if s.first().0 >= x.0 {
        let s1 = s.drop_first();
        let r1 = insert_ranked(s1, x);
        lemma_insert_ranked_basic(s1, x);
        assert forall|k: int| 0 <= k < r.len() implies r[k] == x || s.contains(r[k]) by {
            if k == 0 {
                assert(r[0] == s[0]);
                assert(s.contains(s[0]));
            } else {
                assert(r[k] == r1[k - 1]);
                if r1[k - 1] == x {
                } else {
                    let m = choose|m: int| 0 <= m < s1.len() && s1[m] == r1[k - 1];
                    assert(s[m + 1] == s1[m]);
                    assert(s.contains(s[m + 1]));
                }
            }
        }
        let i = choose|i: int| 0 <= i < r1.len() && r1[i] == x;
        assert(r[i + 1] == x);
        assert(r.contains(r[i + 1]));
        assert forall|y: (i64, int)| s.contains(y) implies r.contains(y) by {
            let m = choose|m: int| 0 <= m < s.len() && s[m] == y;
            if m == 0 {
                assert(r[0] == y);
                assert(r.contains(r[0]));
            } else {
                assert(s1[m - 1] == y);
                assert(s1.contains(s1[m - 1]));
                let i2 = choose|i2: int| 0 <= i2 < r1.len() && r1[i2] == y;
                assert(r[i2 + 1] == y);
                assert(r.contains(r[i2 + 1]));
            }
        }
    } else {
        assert(r[0] == x);
        assert(r.contains(r[0]));
        assert forall|y: (i64, int)| s.contains(y) implies r.contains(y) by {
            let m = choose|m: int| 0 <= m < s.len() && s[m] == y;
            assert(r[m + 1] == y);
            assert(r.contains(r[m + 1]));
        }
        assert forall|k: int| 0 <= k < r.len() implies r[k] == x || s.contains(r[k]) by {
            if k > 0 {
                assert(r[k] == s[k - 1]);
                assert(s.contains(s[k - 1]));
            }
        }
    }
}

/// The strict order the ranked list obeys: higher score first, equal scores
/// by earlier position.
pub open spec fn ranked_before(a: (i64, int), b: (i64, int)) -> bool {
    a.0 > b.0 || (a.0 == b.0 && a.1 < b.1)
}

/// The ranked list is sorted: any earlier element beats any later one.
pub open spec fn sorted_ranked(s: Seq<(i64, int)>) -> bool {
    forall|i: int, j: int| 0 <= i < j < s.len() ==> ranked_before(s[i], s[j])
}

proof fn lemma_insert_ranked_sorted(s: Seq<(i64, int)>, x: (i64, int))
    requires
        sorted_ranked(s),
        forall|k: int| 0 <= k < s.len() ==> (#[trigger] s[k]).1 < x.1,
    ensures
        sorted_ranked(insert_ranked(s, x)),
    decreases s.len(),
{
    let r = insert_ranked(s, x);
    if s.len() == 0 {
    } else if s.first().0 >= x.0 {
        let s1 = s.drop_first();
        let r1 = insert_ranked(s1, x);
        assert forall|i: int, j: int| 0 <= i < j < s1.len() implies ranked_before(
            s1[i],
            s1[j],
        ) by {
            assert(s1[i] == s[i + 1]);
            assert(s1[j] == s[j + 1]);
        }
        assert forall|k: int| 0 <= k < s1.len() implies (#[trigger] s1[k]).1 < x.1 by {
            assert(s1[k] == s[k + 1]);
        }
        lemma_insert_ranked_sorted(s1, x);
        lemma_insert_ranked_basic(s1, x);
        assert forall|i: int, j: int| 0 <= i < j < r.len() implies ranked_before(r[i], r[j]) by {
            if i > 0 {
                assert(r[i] == r1[i - 1]);
                assert(r[j] == r1[j - 1]);
            } else {
                assert(r[0] == s[0]);
                assert(r[j] == r1[j - 1]);
                if r1[j - 1] == x {
                    assert(s[0].0 >= x.0);
                    assert(s[0].1 < x.1);
                } else {
                    let m = choose|m: int| 0 <= m < s1.len() && s1[m] == r1[j - 1];
                    assert(s1[m] == s[m + 1]);
                    assert(ranked_before(s[0], s[m + 1]));
                }
            }
        }
    } else {
        assert forall|i: int, j: int| 0 <= i < j < r.len() implies ranked_before(r[i], r[j]) by {
            if i == 0 {
                assert(r[j] == s[j - 1]);
                if j - 1 == 0 {
                    assert(x.0 > s[0].0);
                } else {
                    assert(ranked_before(s[0], s[j - 1]));
                    assert(x.0 > s[0].0);
                }
            } else {
                assert(r[i] == s[i - 1]);
                assert(r[j] == s[j - 1]);
            }
        }
    }
}

proof fn lemma_rank_elems(c: Seq<(i64, int)>)
    ensures
        rank(c).len() == c.len(),
        forall|y: (i64, int)| c.contains(y) ==> rank(c).contains(y),
        forall|k: int| 0 <= k < rank(c).len() ==> c.contains(rank(c)[k]),
    decreases c.len(),
{
    if c.len() > 0 {
        let c1 = c.drop_last();
        let x = c.last();
        let r1 = rank(c1);
        let r = rank(c);
        lemma_rank_elems(c1);
        lemma_insert_ranked_basic(r1, x);
        assert forall|y: (i64, int)| c.contains(y) implies r.contains(y) by {
            let m = choose|m: int| 0 <= m < c.len() && c[m] == y;
            if m == c.len() - 1 {
                assert(y == x);
            } else {
                assert(c1[m] == c[m]);
                assert(c1.contains(c1[m]));
            }
        }
        assert forall|k: int| 0 <= k < r.len() implies c.contains(r[k]) by {
            if r[k] == x {
                assert(c[c.len() - 1] == x);
                assert(c.contains(c[c.len() - 1]));
            } else {
                assert(r1.contains(r[k]));
                let m = choose|m: int| 0 <= m < c1.len() && c1[m] == r[k];
                assert(c[m] == c1[m]);
                assert(c.contains(c[m]));
            }
        }
    }
}

proof fn lemma_rank_sorted(c: Seq<(i64, int)>)
    requires
        forall|i: int, j: int| 0 <= i < j < c.len() ==> (#[trigger] c[i]).1 < (#[trigger] c[j]).1,
    ensures
        sorted_ranked(rank(c)),
    decreases c.len(),
{
    if c.len() > 0 {
        let c1 = c.drop_last();
        let x = c.last();
        let r1 = rank(c1);
        assert forall|i: int, j: int| 0 <= i < j < c1.len() implies (#[trigger] c1[i]).1 < (
        #[trigger] c1[j]).1 by {
            assert(c1[i] == c[i]);
            assert(c1[j] == c[j]);
        }
        lemma_rank_sorted(c1);
        lemma_rank_elems(c1);
        assert forall|k: int| 0 <= k < r1.len() implies (#[trigger] r1[k]).1 < x.1 by {
            assert(c1.contains(r1[k]));
            let m = choose|m: int| 0 <= m < c1.len() && c1[m] == r1[k];
            assert(c1[m] == c[m]);
            assert(c[c.len() - 1] == x);
            assert(c[m].1 < c[c.len() - 1].1);
        }
        lemma_insert_ranked_sorted(r1, x);
    }
}

proof fn lemma_candidates_basic(entries: Seq<SearchResult>, ql: Seq<char>, qn: Seq<char>)
    ensures
        forall|k: int|
            0 <= k < candidates(entries, ql, qn).len() ==> {
                let p = #[trigger] candidates(entries, ql, qn)[k];
                &&& 0 <= p.1 < entries.len()
                &&& entry_score(entries[p.1].name@, ql, qn) == Some(p.0)
            },
        forall|i: int, j: int|
            0 <= i < j < candidates(entries, ql, qn).len() ==> (#[trigger] candidates(
                entries,
                ql,
                qn,
            )[i]).1 < (#[trigger] candidates(entries, ql, qn)[j]).1,
    decreases entries.len(),
{
    if entries.len() > 0 {
        let e1 = entries.drop_last();
        lemma_candidates_basic(e1, ql, qn);
        assert(forall|m: int| 0 <= m < e1.len() ==> e1[m] == entries[m]);
        assert(entries.last() == entries[entries.len() - 1]);
    }
}

proof fn lemma_candidates_member(
    entries: Seq<SearchResult>,
    ql: Seq<char>,
    qn: Seq<char>,
    i: int,
    s: i64,
)
    requires
        0 <= i < entries.len(),
        entry_score(entries[i].name@, ql, qn) == Some(s),
    ensures
        candidates(entries, ql, qn).contains((s, i)),
    decreases entries.len(),
{
    let c = candidates(entries, ql, qn);
    let e1 = entries.drop_last();
    let pre = candidates(e1, ql, qn);
    if i == entries.len() - 1 {
        assert(entries.last() == entries[i]);
        assert(c[c.len() - 1] == (s, i));
        assert(c.contains(c[c.len() - 1]));
    } else {
        assert(e1[i] == entries[i]);
        lemma_candidates_member(e1, ql, qn, i, s);
        let m = choose|m: int| 0 <= m < pre.len() && pre[m] == (s, i);
        assert(c[m] == (s, i));
        assert(c.contains(c[m]));
    }
}

/// Tie-break stability: in the ranked candidate list a higher score comes
/// strictly first, and candidates with equal scores keep the order they had
/// in the snapshot.
pub proof fn lemma_tie_break_stability(entries: Seq<SearchResult>, q: Seq<char>)
    ensures
        ({
            let ranked = rank(candidates(entries, lower_of(q), normal_of(lower_of(q))));
            forall|i: int, j: int|
                0 <= i < j < ranked.len() ==> ((#[trigger] ranked[i]).0 > (#[trigger] ranked[j]).0
                    || (ranked[i].0 == ranked[j].0 && ranked[i].1 < ranked[j].1))
        }),
{
    let ql = lower_of(q);
    let qn = normal_of(ql);
    lemma_candidates_basic(entries, ql, qn);
    lemma_rank_sorted(candidates(entries, ql, qn));
    let ranked = rank(candidates(entries, ql, qn));
    assert forall|i: int, j: int| 0 <= i < j < ranked.len() implies ((#[trigger] ranked[i]).0 > (
    #[trigger] ranked[j]).0 || (ranked[i].0 == ranked[j].0 && ranked[i].1 < ranked[j].1)) by {
        assert(ranked_before(ranked[i], ranked[j]));
    }
}

/// An entry whose name equals the query up to case folding scores in the top
/// tier; and whenever the candidate list is not cut off at 8, that entry is
/// among the returned results.
pub proof fn lemma_exact_name_match(entries: Seq<SearchResult>, q: Seq<char>, i: int)
    requires
        q.len() > 0,
        0 <= i < entries.len(),
        lower_of(q) == lower_of(entries[i].name@),
    ensures
        entry_score(entries[i].name@, lower_of(q), normal_of(lower_of(q))) == Some(10000i64),
        candidates(entries, lower_of(q), normal_of(lower_of(q))).len() <= 8 ==> search_spec(
            entries,
            q,
        ).contains(entries[i]),
{
    let ql = lower_of(q);
    let qn = normal_of(ql);
    lemma_substring_refl(lower_of(entries[i].name@));
    assert(has_substring(lower_of(entries[i].name@), ql));
    let c = candidates(entries, ql, qn);
    if c.len() <= 8 {
        lemma_candidates_member(entries, ql, qn, i, 10000i64);
        lemma_rank_elems(c);
        let ranked = rank(c);
        assert(ranked.contains((10000i64, i)));
        let m = choose|m: int| 0 <= m < ranked.len() && ranked[m] == (10000i64, i);
        let cut = if ranked.len() <= 8 {
            ranked.len() as int
        } else {
            8int
        };
        assert(ranked.take(cut) =~= ranked);
        let res = search_spec(entries, q);
        assert(res[m] == entries[i]);
        assert(res.contains(res[m]));
    }
}

/// The pairs an executable scored list stands for.
pub open spec fn pair_seq(s: Seq<(i64, usize, SearchResult)>) -> Seq<(i64, int)> {
    s.map_values(|t: (i64, usize, SearchResult)| (t.0, t.1 as int))
}

proof fn lemma_insert_ranked_at(s: Seq<(i64, int)>, x: (i64, int), j: int)
    requires
        0 <= j <= s.len(),
        forall|k: int| 0 <= k < j ==> (#[trigger] s[k]).0 >= x.0,
        j < s.len() ==> s[j].0 < x.0,
    ensures
        insert_ranked(s, x) == s.insert(j, x),
    decreases s.len(),
{
    if s.len() == 0 {
        assert(insert_ranked(s, x) =~= s.insert(j, x));
    } else if j == 0 {
        assert(s[0].0 < x.0);
        assert(insert_ranked(s, x) =~= s.insert(0, x));
    } else {
        assert(s[0].0 >= x.0);
        let s1 = s.drop_first();
        assert forall|k: int| 0 <= k < j - 1 implies (#[trigger] s1[k]).0 >= x.0 by {
            assert(s1[k] == s[k + 1]);
        }
        assert(j - 1 < s1.len() ==> s1[j - 1] == s[j]);
        lemma_insert_ranked_at(s1, x, j - 1);
        assert(insert_ranked(s, x) == seq![s.first()] + s1.insert(j - 1, x));
        assert(seq![s.first()] + s1.insert(j - 1, x) =~= s.insert(j, x));
    }
}

/// Searches the current snapshot: every entry is scored against the query,
/// candidates are ranked by score descending (stable on ties), and at most
/// the best 8 are returned.  An empty query yields the empty list.
pub fn search_apps(index: &Index, query: &str) -> (r: Vec<SearchResult>)
    ensures
        r@ == search_spec(index@, query@),
        r@.len() <= 8,
        query@.len() == 0 ==> r@.len() == 0,
{
    if query.is_empty() {
        let r: Vec<SearchResult> = Vec::new();
        return r;
    }
    let qls = lower(query);
    let ql = to_chars(qls.as_str());
    let qn = normalize(&ql);
    let ghost gql = lower_of(query@);
    let ghost gqn = normal_of(gql);
    let entries = index.snapshot();
    let n: usize = entries.len();
    let mut scored: Vec<(i64, usize, SearchResult)> = Vec::new();
    let mut i: usize = 0;
    while i < n
        invariant
            i <= n,
            n == index@.len(),
            entries@ == index@,
            ql@ == gql,
            qn@ == gqn,
            pair_seq(scored@) == candidates(index@.take(i as int), gql, gqn),
            forall|j: int|
                0 <= j < scored@.len() ==> (#[trigger] scored@[j]).1 < i && scored@[j].2
                    == index@[scored@[j].1 as int],
        decreases n - i,
    {
        match score_name(entries[i].name.as_str(), &ql, &qn) {
            Some(s) => {
                scored.push((s, i, entries[i].clone()));
            },
            None => {},
        }
        i = i + 1;
        proof {
            assert(index@.take(i as int).drop_last() =~= index@.take(i - 1));
            assert(index@.take(i as int).last() == index@[i - 1]);
            assert(pair_seq(scored@) =~= candidates(index@.take(i as int), gql, gqn));
        }
    }
    proof {
        assert(index@.take(n as int) =~= index@);
    }
    let ghost all = scored@;
    let total: usize = scored.len();
    let mut sorted: Vec<(i64, usize, SearchResult)> = Vec::new();
    let mut k: usize = 0;
    while scored.len() > 0
        invariant
            k <= all.len(),
            all.len() == total as int,
            scored@ == all.skip(k as int),
            sorted@.len() == k,
            pair_seq(sorted@) == rank(pair_seq(all.take(k as int))),
            pair_seq(all) == candidates(index@, gql, gqn),
            forall|j: int|
                0 <= j < all.len() ==> (#[trigger] all[j]).1 < index@.len() && all[j].2
                    == index@[all[j].1 as int],
            forall|j: int|
                0 <= j < sorted@.len() ==> (#[trigger] sorted@[j]).1 < index@.len() && sorted@[j].2
                    == index@[sorted@[j].1 as int],
        decreases scored@.len(),
    {
        let x = scored.remove(0);
        proof {
            assert(x == all[k as int]);
        }
        let xs: i64 = x.0;
        let mut j: usize = 0;
        while j < sorted.len() && sorted[j].0 >= xs
            invariant
                j <= sorted@.len(),
                forall|m: int| 0 <= m < j ==> (#[trigger] sorted@[m]).0 >= xs,
            decreases sorted@.len() - j,
        {
            j = j + 1;
        }
        let ghost before = sorted@;
        let ghost px = (x.0, x.1 as int);
        proof {
            assert forall|m: int| 0 <= m < j implies (#[trigger] pair_seq(before)[m]).0 >= px.0 by {
                assert(pair_seq(before)[m] == (before[m].0, before[m].1 as int));
            }
            assert(j < before.len() ==> pair_seq(before)[j as int].0 < px.0);
            lemma_insert_ranked_at(pair_seq(before), px, j as int);
        }
        sorted.insert(j, x);
        k = k + 1;
        proof {
            assert(pair_seq(sorted@) =~= pair_seq(before).insert(j as int, px));
            assert(all.take(k as int).drop_last() =~= all.take(k - 1));
            assert(all.take(k as int).last() == all[k - 1]);
            assert(pair_seq(all.take(k as int)).drop_last() =~= pair_seq(all.take(k - 1)));
            assert(pair_seq(all.take(k as int)).last() == px);
            assert(rank(pair_seq(all.take(k as int))) == insert_ranked(
                rank(pair_seq(all.take(k - 1))),
                px,
            ));
            assert(scored@ == all.skip(k as int));
        }
    }
    proof {
        assert(all.take(k as int) =~= all);
    }
    if sorted.len() > 8 {
        let ghost whole = sorted@;
        sorted.truncate(8);
        proof {
            assert(pair_seq(sorted@) =~= pair_seq(whole).take(8));
        }
    }
    let ghost ranked = rank(candidates(index@, gql, gqn));
    let ghost cut = if ranked.len() <= 8 {
        ranked.len() as int
    } else {
        8int
    };
    proof {
        assert(pair_seq(sorted@) =~= ranked.take(cut));
    }
    let mut out: Vec<SearchResult> = Vec::new();
    let mut m: usize = 0;
    while m < sorted.len()
        invariant
            m <= sorted@.len(),
            out@.len() == m,
            pair_seq(sorted@) == ranked.take(cut),
            forall|j: int|
                0 <= j < sorted@.len() ==> (#[trigger] sorted@[j]).1 < index@.len() && sorted@[j].2
                    == index@[sorted@[j].1 as int],
            forall|j: int| 0 <= j < m ==> out@[j] == (#[trigger] sorted@[j]).2,
        decreases sorted@.len() - m,
    {
        out.push(sorted[m].2.clone());
        m = m + 1;
    }
    proof {
        assert forall|j: int| 0 <= j < out@.len() implies out@[j] == search_spec(
            index@,
            query@,
        )[j] by {
            assert(ranked.take(cut)[j] == pair_seq(sorted@)[j]);
            assert(pair_seq(sorted@)[j] == (sorted@[j].0, sorted@[j].1 as int));
        }
        assert(out@ =~= search_spec(index@, query@));
    }
    out
}

/// An entry the diagnostic lookup reports: the folded query occurs in its
/// folded name or its folded location.
pub open spec fn debug_matches(e: SearchResult, ql: Seq<char>) -> bool {
    has_substring(lower_of(e.name@), ql) || has_substring(lower_of(e.path@), ql)
}

/// What the diagnostic lookup returns: the first 20 entries of the snapshot,
/// in order, whose name or location contains the query case-insensitively.
pub open spec fn debug_spec(entries: Seq<SearchResult>, ql: Seq<char>) -> Seq<SearchResult>
    decreases entries.len(),
{
    if entries.len() == 0 {
        Seq::empty()
    } else {
        let pre = debug_spec(entries.drop_last(), ql);
        if pre.len() < 20 && debug_matches(entries.last(), ql) {
            pre.push(entries.last())
        } else {
            pre
        }
    }
}

/// Case-insensitive substring lookup over both name and location, capped at
/// 20 results; a diagnostic view of the index, independent of ranking.
pub fn debug_search(index: &Index, query: &str) -> (r: Vec<SearchResult>)
    ensures
        r@ == debug_spec(index@, lower_of(query@)),
        r@.len() <= 20,
{
    let qls = lower(query);
    let ql = to_chars(qls.as_str());
    let entries = index.snapshot();
    let n: usize = entries.len();
    let mut out: Vec<SearchResult> = Vec::new();
    let mut i: usize = 0;
    while i < n
        invariant
            i <= n,
            n == index@.len(),
            entries@ == index@,
            ql@ == lower_of(query@),
            out@ == debug_spec(index@.take(i as int), lower_of(query@)),
            out@.len() <= 20,
        decreases n - i,
    {
        if out.len() < 20 {
            let nlow = lower(entries[i].name.as_str());
            let nl = to_chars(nlow.as_str());
            let hit = if contains_chars(&nl, &ql) {
                true
            } else {
                let plow = lower(entries[i].path.as_str());
                let pl = to_chars(plow.as_str());
                contains_chars(&pl, &ql)
            };
            if hit {
                out.push(entries[i].clone());
            }
        }
        i = i + 1;
        proof {
            assert(index@.take(i as int).drop_last() =~= index@.take(i - 1));
            assert(index@.take(i as int).last() == index@[i - 1]);
        }
    }
    proof {
        assert(index@.take(n as int) =~= index@);
    }
    out
}

} // verus!
