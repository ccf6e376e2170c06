use vstd::prelude::*;

use crate::text::{chars_of, lower_of, lowercase};

verus! {

/// Whether `q` occurs in `t` as a contiguous run of characters.
pub open spec fn occurs_in(q: Seq<char>, t: Seq<char>) -> bool {
    exists|i: int| 0 <= i && i + q.len() <= t.len() && #[trigger] t.subrange(i, i + q.len()) == q
}

/// How many characters of `q` a single forward pass over `t` finds: each
/// character of `q` in turn is looked for from just past the previous hit,
/// and the pass ends for good once `t` runs out.
pub open spec fn forward_hits(q: Seq<char>, t: Seq<char>) -> nat
    decreases t.len(),
{
    if q.len() == 0 || t.len() == 0 {
        0
    } else if q[0] == t[0] {
        1 + forward_hits(q.drop_first(), t.drop_first())
    } else {
        forward_hits(q, t.drop_first())
    }
}

/// The score of an already lower-cased query against an already lower-cased
/// target: twice the query's length when it occurs in the target, else the
/// forward hit count.
pub open spec fn score_of(q: Seq<char>, t: Seq<char>) -> nat {
    if occurs_in(q, t) {
        2 * q.len()
    } else {
        forward_hits(q, t)
    }
}

/// The case-insensitive score of `query` against `target`.
pub open spec fn fuzzy_score(query: Seq<char>, target: Seq<char>) -> nat {
    score_of(lower_of(query), lower_of(target))
}

/// A query whose score fits in a `usize`.
pub open spec fn scorable(q: Seq<char>) -> bool {
    q.len() <= usize::MAX / 2
}

/// Whether `q` occurs in `t` starting at position `i`.
fn occurs_at(q: &Vec<char>, t: &Vec<char>, i: usize) -> (r: bool)
    requires
        i + q.len() <= t.len(),
    ensures
        r == (t@.subrange(i as int, i + q.len()) == q@),
{
    let m = q.len();
    let mut j: usize = 0;
    while j < m
        invariant
            m == q.len(),
            i + m <= t.len(),
            j <= m,
            forall|k: int| 0 <= k < j ==> t@[i + k] == #[trigger] q@[k],
        decreases m - j,
    {
        if t[i + j] != q[j] {
            assert(t@.subrange(i as int, i + m)[j as int] != q@[j as int]);
            return false;
        }
        j += 1;
    }
    assert(t@.subrange(i as int, i + m) =~= q@);
    true
}

/// Whether `q` occurs anywhere in `t`.
fn contains_run(q: &Vec<char>, t: &Vec<char>) -> (r: bool)
    ensures
        r == occurs_in(q@, t@),
{
    let m = q.len();
    let n = t.len();
    if m > n {
        return false;
    }
    let mut i: usize = 0;
    loop
        invariant
            m == q.len(),
            n == t.len(),
            m <= n,
            i <= n - m,
            forall|k: int| 0 <= k < i ==> #[trigger] t@.subrange(k, k + m) != q@,
        ensures
            i == n - m,
            t@.subrange(i as int, i + m) != q@,
        decreases n - m - i,
    {
        if occurs_at(q, t, i) {
            return true;
        }
        if i == n - m {
            break;
        }
        i += 1;
    }
    assert forall|k: int| 0 <= k && k + q@.len() <= t@.len() implies #[trigger] t@.subrange(
        k,
        k + q@.len(),
    ) != q@ by {
        assert(k <= i);
    }
    false
}

proof fn lemma_forward_hits_skip(q: Seq<char>, t: Seq<char>, k: int)
    requires
        0 <= k < t.len(),
        q.len() > 0,
        q[0] != t[k],
    ensures
        forward_hits(q, t.subrange(k, t.len() as int)) == forward_hits(
            q,
            t.subrange(k + 1, t.len() as int),
        ),
{
    assert(t.subrange(k, t.len() as int).drop_first() =~= t.subrange(k + 1, t.len() as int));
}

/// The forward hit count of `q` in `t`.
fn count_forward_hits(q: &Vec<char>, t: &Vec<char>) -> (r: usize)
    ensures
        r == forward_hits(q@, t@),
{
    let qn = q.len();
    let tn = t.len();
    let mut hits: usize = 0;
    let mut qi: usize = 0;
    let mut k: usize = 0;
    assert(q@.subrange(0, qn as int) =~= q@);
    assert(t@.subrange(0, tn as int) =~= t@);
    while qi < qn
        invariant
            qn == q.len(),
            tn == t.len(),
            qi <= qn,
            k <= tn,
            hits <= qi,
            hits + forward_hits(q@.subrange(qi as int, qn as int), t@.subrange(k as int, tn as int))
                == forward_hits(q@, t@),
        decreases qn - qi,
    {
        let c = q[qi];
        while k < tn && t[k] != c
            invariant
                qn == q.len(),
                tn == t.len(),
                qi < qn,
                k <= tn,
                c == q@[qi as int],
                hits + forward_hits(
                    q@.subrange(qi as int, qn as int),
                    t@.subrange(k as int, tn as int),
                ) == forward_hits(q@, t@),
            decreases tn - k,
        {
            proof {
                lemma_forward_hits_skip(q@.subrange(qi as int, qn as int), t@, k as int);
            }
            k += 1;
        }
        if k == tn {
            assert(t@.subrange(k as int, tn as int).len() == 0);
            return hits;
        }
        proof {
            let qs = q@.subrange(qi as int, qn as int);
            let ts = t@.subrange(k as int, tn as int);
            assert(qs.drop_first() =~= q@.subrange(qi + 1, qn as int));
            assert(ts.drop_first() =~= t@.subrange(k + 1, tn as int));
        }
        hits += 1;
        k += 1;
        qi += 1;
    }
    assert(q@.subrange(qi as int, qn as int).len() == 0);
    hits
}

/// The score of a lower-cased `query` against a lower-cased `target`.
pub fn score_lowered(query: &str, target: &str) -> (r: usize)
    requires
        scorable(query@),
    ensures
        r == score_of(query@, target@),
{
    let q = chars_of(query);
    let t = chars_of(target);
    if contains_run(&q, &t) {
        2 * q.len()
    } else {
        count_forward_hits(&q, &t)
    }
}

/// Scores `target` against `query`, ignoring case.
pub fn fuzzy_match(query: &str, target: &str) -> (r: usize)
    ensures
        scorable(lower_of(query@)) ==> r == fuzzy_score(query@, target@),
        !scorable(lower_of(query@)) ==> r == 0,
        query@.len() == 0 ==> r == 0,
{
    let q = lowercase(query);
    let t = lowercase(target);
    if q.as_str().unicode_len() > usize::MAX / 2 {
        return 0;
    }
    proof {
        if query@.len() == 0 {
            lemma_empty_query_scores_zero(t@);
        }
    }
    score_lowered(q.as_str(), t.as_str())
}

proof fn lemma_forward_hits_at_most_query(q: Seq<char>, t: Seq<char>)
    ensures
        forward_hits(q, t) <= q.len(),
    decreases t.len(),
{
    if q.len() > 0 && t.len() > 0 {
        lemma_forward_hits_at_most_query(q.drop_first(), t.drop_first());
        lemma_forward_hits_at_most_query(q, t.drop_first());
    }
}

proof fn lemma_first_missing_no_hits(q: Seq<char>, t: Seq<char>)
    requires
        q.len() > 0,
        forall|j: int| 0 <= j < t.len() ==> t[j] != q[0],
    ensures
        forward_hits(q, t) == 0,
    decreases t.len(),
{
    if t.len() > 0 {
        assert(t[0] != q[0]);
        assert forall|j: int| 0 <= j < t.drop_first().len() implies t.drop_first()[j] != q[0] by {
            assert(t.drop_first()[j] == t[j + 1]);
        }
        lemma_first_missing_no_hits(q, t.drop_first());
    }
}

/// An empty (lower-cased) query scores zero against every target.
pub proof fn lemma_empty_query_scores_zero(t: Seq<char>)
    ensures
        score_of(Seq::empty(), t) == 0,
{
    assert(t.subrange(0, 0) =~= Seq::<char>::empty());
}

/// A target that holds the lower-cased query as a contiguous run scores
/// twice the query's length.
pub proof fn lemma_substring_scores_double(query: Seq<char>, target: Seq<char>)
    requires
        occurs_in(lower_of(query), lower_of(target)),
    ensures
        fuzzy_score(query, target) == 2 * lower_of(query).len(),
{
}

/// A query none of whose lower-cased characters occurs in the lower-cased
/// target scores zero.
pub proof fn lemma_disjoint_scores_zero(query: Seq<char>, target: Seq<char>)
    requires
        forall|i: int, j: int|
            0 <= i < lower_of(query).len() && 0 <= j < lower_of(target).len()
                ==> #[trigger] lower_of(query)[i] != #[trigger] lower_of(target)[j],
    ensures
        fuzzy_score(query, target) == 0,
{
    let q = lower_of(query);
    let t = lower_of(target);
    if q.len() == 0 {
        lemma_empty_query_scores_zero(t);
    } else {
        if occurs_in(q, t) {
            let i = choose|i: int|
                0 <= i && i + q.len() <= t.len() && #[trigger] t.subrange(i, i + q.len()) == q;
            assert(t.subrange(i, i + q.len())[0] == t[i]);
            assert(q[0] != t[i]);
        }
        lemma_first_missing_no_hits(q, t);
    }
}

/// Scores ignore case: queries and targets with the same lower-case forms
/// score the same.
pub proof fn lemma_case_insensitive(q1: Seq<char>, q2: Seq<char>, t1: Seq<char>, t2: Seq<char>)
    requires
        lower_of(q1) == lower_of(q2),
        lower_of(t1) == lower_of(t2),
    ensures
        fuzzy_score(q1, t1) == fuzzy_score(q2, t2),
{
}

/// For a fixed query, a target that holds it as a contiguous run scores at
/// least as much as any other target.
pub proof fn lemma_substring_dominates(query: Seq<char>, t1: Seq<char>, t2: Seq<char>)
    requires
        occurs_in(lower_of(query), lower_of(t1)),
    ensures
        fuzzy_score(query, t1) >= fuzzy_score(query, t2),
{
    lemma_forward_hits_at_most_query(lower_of(query), lower_of(t2));
}

} // verus!
