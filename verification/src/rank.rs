//! Ranking of results for the report's top list.
//!
//! Results are ordered by success rate descending — the rate as reported, in
//! tenths of a percent — with ties broken by raw successful-domain count
//! descending. The sort is stable: results that tie completely keep their
//! aggregation order.

use vstd::prelude::*;
use vstd::seq_lib::to_multiset_insert;

use crate::outcome::{ResultView, TestResult};

verus! {

/// `a` strictly outranks `b`: higher success rate, or the same rate with
/// more successful domains.
pub open spec fn ranks_above(a: ResultView, b: ResultView) -> bool {
    a.rate() > b.rate() || (a.rate() == b.rate() && a.successes() > b.successes())
}

/// Ranked order: no element strictly outranks an element before it.
pub open spec fn sorted_by_rank(s: Seq<ResultView>) -> bool {
    forall|i: int, j: int| 0 <= i < j < s.len() ==> !ranks_above(#[trigger] s[j], #[trigger] s[i])
}

/// Where `x` lands in the ranked sequence `s`: before the first element that
/// `x` strictly outranks, after everything else — so equals sink below their
/// peers, keeping the sort stable.
pub open spec fn insert_pos(s: Seq<ResultView>, x: ResultView) -> int
    decreases s.len(),
{
    if s.len() == 0 || ranks_above(x, s[0]) {
        0
    } else {
        1 + insert_pos(s.drop_first(), x)
    }
}

/// The ranked sequence `s` with `x` inserted at its position.
pub open spec fn insert_ranked(s: Seq<ResultView>, x: ResultView) -> Seq<ResultView>
    decreases s.len(),
{
    if s.len() == 0 || ranks_above(x, s[0]) {
        seq![x] + s
    } else {
        seq![s[0]] + insert_ranked(s.drop_first(), x)
    }
}

/// The ranked order of `s`: every element inserted in turn. This is the
/// insertion sort the report's top list shows.
pub open spec fn sort_ranked(s: Seq<ResultView>) -> Seq<ResultView>
    decreases s.len(),
{
    if s.len() == 0 {
        Seq::empty()
    } else {
        insert_ranked(sort_ranked(s.drop_last()), s.last())
    }
}

/// `insert_ranked` inserts exactly at `insert_pos`: everything before the
/// position is not outranked by `x`, and the element at the position (if
/// any) is.
pub proof fn lemma_insert_ranked_char(s: Seq<ResultView>, x: ResultView)
    ensures
        0 <= insert_pos(s, x) <= s.len(),
        forall|m: int| 0 <= m < insert_pos(s, x) ==> !ranks_above(x, #[trigger] s[m]),
        insert_pos(s, x) == s.len() || ranks_above(x, s[insert_pos(s, x)]),
        insert_ranked(s, x) == s.insert(insert_pos(s, x), x),
    decreases s.len(),
{
    if s.len() == 0 || ranks_above(x, s[0]) {
        assert(insert_ranked(s, x) =~= s.insert(0, x));
    } else {
        lemma_insert_ranked_char(s.drop_first(), x);
        let p = insert_pos(s.drop_first(), x);
        assert forall|m: int| 0 <= m < 1 + p implies !ranks_above(x, #[trigger] s[m]) by {
            if m > 0 {
                assert(s.drop_first()[m - 1] == s[m]);
            }
        }
        if p < s.drop_first().len() {
            assert(s.drop_first()[p] == s[p + 1]);
        }
        assert(seq![s[0]] + s.drop_first().insert(p, x) =~= s.insert(1 + p, x));
    }
}

/// Inserting into a ranked sequence keeps it ranked.
pub proof fn lemma_insert_ranked_sorted(s: Seq<ResultView>, x: ResultView)
    requires
        sorted_by_rank(s),
    ensures
        sorted_by_rank(insert_ranked(s, x)),
{
    lemma_insert_ranked_char(s, x);
    let p = insert_pos(s, x);
    let r = s.insert(p, x);
    assert forall|i: int, j: int| 0 <= i < j < r.len() implies !ranks_above(
        #[trigger] r[j],
        #[trigger] r[i],
    ) by {
        if i < p {
            assert(r[i] == s[i]);
        } else if i == p {
            assert(r[i] == x);
        } else {
            assert(r[i] == s[i - 1]);
        }
        if j < p {
            assert(r[j] == s[j]);
        } else if j == p {
            assert(r[j] == x);
        } else {
            assert(r[j] == s[j - 1]);
        }
    }
}

/// Inserting adds exactly the inserted element to the contents.
pub proof fn lemma_insert_ranked_multiset(s: Seq<ResultView>, x: ResultView)
    ensures
        insert_ranked(s, x).to_multiset() == s.to_multiset().insert(x),
        insert_ranked(s, x).len() == s.len() + 1,
{
    lemma_insert_ranked_char(s, x);
    to_multiset_insert(s, insert_pos(s, x), x);
}

/// The ranked order is ranked.
pub proof fn lemma_sort_ranked_sorted(s: Seq<ResultView>)
    ensures
        sorted_by_rank(sort_ranked(s)),
    decreases s.len(),
{
    if s.len() > 0 {
        lemma_sort_ranked_sorted(s.drop_last());
        lemma_insert_ranked_sorted(sort_ranked(s.drop_last()), s.last());
    }
}

/// The ranked order holds exactly the elements of its input.
pub proof fn lemma_sort_ranked_permutation(s: Seq<ResultView>)
    ensures
        sort_ranked(s).to_multiset() == s.to_multiset(),
        sort_ranked(s).len() == s.len(),
    decreases s.len(),
{
    if s.len() > 0 {
        vstd::seq_lib::to_multiset_build(s.drop_last(), s.last());
        lemma_sort_ranked_permutation(s.drop_last());
        lemma_insert_ranked_multiset(sort_ranked(s.drop_last()), s.last());
        assert(s.drop_last().push(s.last()) =~= s);
    } else {
        assert(s =~= Seq::<ResultView>::empty());
    }
}

/// The models of a sequence of results.
pub open spec fn views_of(s: Seq<TestResult>) -> Seq<ResultView> {
    s.map_values(|t: TestResult| t@)
}

/// Whether `a` strictly outranks `b`.
pub fn outranks(a: &TestResult, b: &TestResult) -> (r: bool)
    ensures
        r == ranks_above(a@, b@),
{
    let ra = a.success_rate_permille();
    let rb = b.success_rate_permille();
    ra > rb || (ra == rb && a.successful_count() > b.successful_count())
}

/// The results in ranked order: by success rate descending, ties broken by
/// successful-domain count descending, fully ranked results keeping their
/// input order.
pub fn top_ranked(results: &Vec<TestResult>) -> (r: Vec<TestResult>)
    ensures
        views_of(r@) == sort_ranked(views_of(results@)),
        sorted_by_rank(views_of(r@)),
        views_of(r@).to_multiset() == views_of(results@).to_multiset(),
        r@.len() == results@.len(),
{
    let ghost all = views_of(results@);
    let mut sorted: Vec<TestResult> = Vec::new();
    let mut idx: usize = 0;
    while idx < results.len()
        invariant
            idx <= results@.len(),
            all == views_of(results@),
            views_of(sorted@) == sort_ranked(all.take(idx as int)),
            sorted@.len() == idx,
        decreases results@.len() - idx,
    {
        let ghost prev = views_of(sorted@);
        let x = results[idx].duplicate();
        let mut pos: usize = 0;
        while pos < sorted.len() && !outranks(&x, &sorted[pos])
            invariant
                pos <= sorted@.len(),
                prev == views_of(sorted@),
                x@ == all[idx as int],
                idx < all.len(),
                forall|m: int| 0 <= m < pos ==> !ranks_above(x@, #[trigger] prev[m]),
            decreases sorted@.len() - pos,
        {
            pos = pos + 1;
        }
        proof {
            lemma_insert_ranked_char(prev, x@);
            assert(insert_pos(prev, x@) == pos) by {
                let p = insert_pos(prev, x@);
                if p < pos {
                    assert(!ranks_above(x@, prev[p]));
                } else if p > pos {
                    assert(!ranks_above(x@, prev[pos as int]));
                }
            }
        }
        sorted.insert(pos, x);
        idx = idx + 1;
        proof {
            assert(views_of(sorted@) =~= prev.insert(pos as int, x@));
            assert(all.take(idx as int).drop_last() =~= all.take(idx - 1));
            assert(all.take(idx as int).last() == all[idx - 1]);
            lemma_insert_ranked_multiset(prev, x@);
        }
    }
    proof {
        assert(all.take(results@.len() as int) =~= all);
        lemma_sort_ranked_sorted(all);
        lemma_sort_ranked_permutation(all);
    }
    sorted
}

} // verus!
