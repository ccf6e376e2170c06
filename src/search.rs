use vstd::prelude::*;

use crate::command::BentoCommand;
use crate::matcher::{fuzzy_score, score_lowered, scorable};
use crate::text::{chars_of, lower_of, lowercase, same_chars};

verus! {

/// The most results a search returns.
pub const MAX_RESULTS: usize = 15;

/// Whether a category passes the filter: every category does when no filter
/// is set, else only the filter's own.
pub open spec fn admits(filter: Option<Seq<char>>, category: Seq<char>) -> bool {
    match filter {
        Some(c) => category == c,
        None => true,
    }
}

/// Whether a command takes part in a search: its category passes the filter
/// and its name scores above zero.
pub open spec fn eligible(c: BentoCommand, query: Seq<char>, filter: Option<Seq<char>>) -> bool {
    admits(filter, c.category@) && fuzzy_score(query, c.name@) > 0
}

/// Whether entry `i` of `cmds` ranks ahead of entry `j`: the higher score
/// first, and of equal scores the earlier entry.
pub open spec fn ranks_before(cmds: Seq<BentoCommand>, query: Seq<char>, i: int, j: int) -> bool {
    let si = fuzzy_score(query, cmds[i].name@);
    let sj = fuzzy_score(query, cmds[j].name@);
    si > sj || (si == sj && i < j)
}

/// Whether `idx` lists, best first, the positions of the highest-ranked
/// eligible entries of `cmds`: all of them, or `MAX_RESULTS` of them when
/// there are more.
pub open spec fn is_top_ranking(
    cmds: Seq<BentoCommand>,
    query: Seq<char>,
    filter: Option<Seq<char>>,
    idx: Seq<int>,
) -> bool {
    &&& idx.len() <= MAX_RESULTS
    &&& forall|a: int|
        0 <= a < idx.len() ==> 0 <= #[trigger] idx[a] < cmds.len() && eligible(
            cmds[idx[a]],
            query,
            filter,
        )
    &&& forall|a: int, b: int|
        0 <= a < b < idx.len() ==> ranks_before(cmds, query, #[trigger] idx[a], #[trigger] idx[b])
    &&& forall|i: int|
        0 <= i < cmds.len() && eligible(#[trigger] cmds[i], query, filter) && !idx.contains(i)
            ==> idx.len() == MAX_RESULTS && forall|a: int|
            0 <= a < idx.len() ==> ranks_before(cmds, query, #[trigger] idx[a], i)
}

/// Whether `out` holds the entries of `cmds` at the positions `idx`, in order.
pub open spec fn picked(cmds: Seq<BentoCommand>, idx: Seq<int>, out: Seq<BentoCommand>) -> bool {
    &&& out.len() == idx.len()
    &&& forall|a: int| 0 <= a < idx.len() ==> #[trigger] out[a] == cmds[idx[a]]
}

/// The view of an optional category filter.
pub open spec fn filter_view(filter: Option<&str>) -> Option<Seq<char>> {
    match filter {
        Some(f) => Some(f@),
        None => None,
    }
}

/// The commands that best match `query`, best first, among those whose
/// category passes `filter`. An empty query finds nothing.
pub fn search(
    commands: &Vec<BentoCommand>,
    query: &str,
    filter: Option<&str>,
) -> (r: Vec<BentoCommand>)
    ensures
        r@.len() <= MAX_RESULTS,
        forall|j: int|
            0 <= j < r@.len() ==> eligible(#[trigger] r@[j], query@, filter_view(filter)),
        query@.len() == 0 ==> r@.len() == 0,
        !scorable(lower_of(query@)) ==> r@.len() == 0,
        query@.len() > 0 && scorable(lower_of(query@)) ==> exists|idx: Seq<int>|
            is_top_ranking(commands@, query@, filter_view(filter), idx) && picked(
                commands@,
                idx,
                r@,
            ),
{
    let mut out: Vec<BentoCommand> = Vec::new();
    if query.unicode_len() == 0 {
        return out;
    }
    let q = lowercase(query);
    if q.as_str().unicode_len() > usize::MAX / 2 {
        return out;
    }
    let ghost fv = filter_view(filter);
    let wanted: Option<Vec<char>> = match filter {
        Some(f) => Some(chars_of(f)),
        None => None,
    };
    let n = commands.len();
    let mut scores: Vec<usize> = Vec::with_capacity(n);
    let mut taken: Vec<bool> = Vec::with_capacity(n);
    let mut i: usize = 0;
    while i < n
        invariant
            n == commands@.len(),
            i <= n,
            scorable(q@),
            q@ == lower_of(query@),
            fv == filter_view(filter),
            match wanted {
                Some(w) => fv == Some(w@),
                None => fv is None,
            },
            scores@.len() == i,
            taken@.len() == i,
            forall|k: int| 0 <= k < i ==> !#[trigger] taken@[k],
            forall|k: int|
                0 <= k < i ==> #[trigger] scores@[k] == if admits(fv, commands@[k].category@) {
                    fuzzy_score(query@, commands@[k].name@)
                } else {
                    0
                },
        decreases n - i,
    {
        let cmd = &commands[i];
        let passes = match &wanted {
            Some(w) => same_chars(&chars_of(cmd.category.as_str()), w),
            None => true,
        };
        let s = if passes {
            let t = lowercase(cmd.name.as_str());
            score_lowered(q.as_str(), t.as_str())
        } else {
            0
        };
        scores.push(s);
        taken.push(false);
        i += 1;
    }
    let ghost mut idx: Seq<int> = Seq::empty();
    while out.len() < MAX_RESULTS
        invariant
            n == commands@.len(),
            scores@.len() == n,
            taken@.len() == n,
            out@.len() <= MAX_RESULTS,
            forall|k: int|
                0 <= k < n ==> #[trigger] scores@[k] == if admits(fv, commands@[k].category@) {
                    fuzzy_score(query@, commands@[k].name@)
                } else {
                    0
                },
            forall|k: int| 0 <= k < n ==> (#[trigger] taken@[k] <==> idx.contains(k)),
            idx.len() <= MAX_RESULTS,
            picked(commands@, idx, out@),
            forall|a: int|
                0 <= a < idx.len() ==> 0 <= #[trigger] idx[a] < n && eligible(
                    commands@[idx[a]],
                    query@,
                    fv,
                ),
            forall|a: int, b: int|
                0 <= a < b < idx.len() ==> ranks_before(
                    commands@,
                    query@,
                    #[trigger] idx[a],
                    #[trigger] idx[b],
                ),
            forall|k: int|
                0 <= k < n && eligible(#[trigger] commands@[k], query@, fv) && !idx.contains(k)
                    ==> forall|a: int|
                    0 <= a < idx.len() ==> ranks_before(commands@, query@, #[trigger] idx[a], k),
        ensures
            is_top_ranking(commands@, query@, fv, idx),
            picked(commands@, idx, out@),
        decreases MAX_RESULTS - out@.len(),
    {
        let mut best: usize = n;
        let mut j: usize = 0;
        while j < n
            invariant
                n == commands@.len(),
                scores@.len() == n,
                taken@.len() == n,
                j <= n,
                best == n || best < j,
                forall|k: int|
                    0 <= k < n ==> #[trigger] scores@[k] == if admits(fv, commands@[k].category@) {
                        fuzzy_score(query@, commands@[k].name@)
                    } else {
                        0
                    },
                best < n ==> !taken@[best as int] && scores@[best as int] > 0,
                forall|k: int|
                    0 <= k < j && !#[trigger] taken@[k] && scores@[k] > 0 ==> best < n && (k
                        == best || ranks_before(commands@, query@, best as int, k)),
            decreases n - j,
        {
            if !taken[j] && scores[j] > 0 && (best == n || scores[j] > scores[best]) {
                best = j;
            }
            j += 1;
        }
        if best == n {
            proof {
                assert forall|k: int|
                    0 <= k < n && eligible(#[trigger] commands@[k], query@, fv) implies idx.contains(
                    k,
                ) by {
                    assert(scores@[k] > 0);
                    assert(taken@[k]);
                }
            }
            break;
        }
        let ghost old_idx = idx;
        proof {
            assert forall|k: int|
                0 <= k < n && eligible(#[trigger] commands@[k], query@, fv) && !old_idx.contains(k)
                    && k != best implies ranks_before(commands@, query@, best as int, k) by {
                assert(scores@[k] > 0);
                assert(!taken@[k]);
            }
            idx = idx.push(best as int);
            assert forall|k: int|
                0 <= k < n && eligible(#[trigger] commands@[k], query@, fv) && !idx.contains(k)
                    implies forall|a: int|
                    0 <= a < idx.len() ==> ranks_before(commands@, query@, #[trigger] idx[a], k) by {
                assert(k != best) by {
                    assert(idx[old_idx.len() as int] == best);
                }
                assert(!old_idx.contains(k)) by {
                    if old_idx.contains(k) {
                        let a = choose|a: int| 0 <= a < old_idx.len() && old_idx[a] == k;
                        assert(idx[a] == k);
                    }
                }
                assert forall|a: int| 0 <= a < idx.len() implies ranks_before(
                    commands@,
                    query@,
                    #[trigger] idx[a],
                    k,
                ) by {
                    if a < old_idx.len() {
                        assert(idx[a] == old_idx[a]);
                    }
                }
            }
        }
        taken.set(best, true);
        proof {
            assert forall|k: int| 0 <= k < n implies (#[trigger] taken@[k] <==> idx.contains(k)) by {
                if old_idx.contains(k) {
                    let a = choose|a: int| 0 <= a < old_idx.len() && old_idx[a] == k;
                    assert(idx[a] == k);
                }
                if k == best {
                    assert(idx[old_idx.len() as int] == k);
                }
                if idx.contains(k) && k != best {
                    let a = choose|a: int| 0 <= a < idx.len() && idx[a] == k;
                    assert(old_idx[a] == k);
                }
            }
        }
        out.push(commands[best].duplicate());
    }
    out
}

} // verus!
