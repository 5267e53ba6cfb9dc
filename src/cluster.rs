//! Merging the solutions of independent groups of equations.
use crate::solution::Solution;
use vstd::prelude::*;

verus! {

/// The solutions of the groups that were solved, merged in order: a later
/// group's value for a variable replaces an earlier one, and a group that
/// was not solved adds nothing.
pub open spec fn merge_all<T>(results: Seq<Option<Map<Seq<char>, T>>>) -> Map<Seq<char>, T>
    decreases results.len(),
{
    if results.len() == 0 {
        Map::empty()
    } else {
        let prev = merge_all(results.drop_last());
        match results.last() {
            Some(m) => prev.union_prefer_right(m),
            None => prev,
        }
    }
}

/// The group outcome `o` is a solution that assigns `n`.
pub open spec fn assigns<T>(o: Option<Map<Seq<char>, T>>, n: Seq<char>) -> bool {
    match o {
        Some(m) => m.contains_key(n),
        None => false,
    }
}

/// The group outcome `o` is no solution or a well-formed one.
pub open spec fn outcome_wf<T: Copy>(o: Option<Solution<T>>) -> bool {
    match o {
        Some(s) => s.wf(),
        None => true,
    }
}

/// The outcome of each group, seen as maps.
pub open spec fn outcome_views<T>(results: Seq<Option<Solution<T>>>) -> Seq<
    Option<Map<Seq<char>, T>>,
> {
    results.map_values(
        |o: Option<Solution<T>>|
            match o {
                Some(s) => Some(s@),
                None => None,
            },
    )
}

/// Merges the outcomes of the groups, in order, into one solution.
pub fn merge_cluster_solutions<T: Copy>(results: &Vec<Option<Solution<T>>>) -> (r: Solution<T>)
    requires
        forall|i: int|
            0 <= i < results.len() ==> outcome_wf(#[trigger] results@[i]),
    ensures
        r.wf(),
        r@ == merge_all(outcome_views(results@)),
{
    let mut merged = Solution::new();
    let ghost views = outcome_views(results@);
    let mut i: usize = 0;
    while i < results.len()
        invariant
            i <= results.len(),
            views == outcome_views(results@),
            forall|k: int|
                0 <= k < results.len() ==> outcome_wf(#[trigger] results@[k]),
            merged.wf(),
            merged@ == merge_all(views.take(i as int)),
        decreases results.len() - i,
    {
        assert(views.take(i as int + 1).drop_last() =~= views.take(i as int));
        assert(views.take(i as int + 1).last() == views[i as int]);
        match &results[i] {
            Some(s) => {
                merged.extend(s);
            },
            None => {},
        }
        i = i + 1;
    }
    assert(views.take(i as int) =~= views);
    merged
}

/// A variable is in the merged solution exactly when some solved group
/// assigns it.
pub proof fn lemma_merge_domain<T>(results: Seq<Option<Map<Seq<char>, T>>>, n: Seq<char>)
    ensures
        merge_all(results).contains_key(n) <==> exists|i: int|
            0 <= i < results.len() && assigns(#[trigger] results[i], n),
    decreases results.len(),
{
    if results.len() > 0 {
        let init = results.drop_last();
        lemma_merge_domain(init, n);
        if exists|i: int|
            0 <= i < init.len() && assigns(#[trigger] init[i], n) {
            let i = choose|i: int|
                0 <= i < init.len() && assigns(#[trigger] init[i], n);
            assert(results[i] == init[i]);
        }
        if exists|i: int|
            0 <= i < results.len() && assigns(#[trigger] results[i], n) {
            let i = choose|i: int|
                0 <= i < results.len() && assigns(#[trigger] results[i], n);
            if i < results.len() - 1 {
                assert(init[i] == results[i]);
            }
        }
    }
}

/// Where a solved group assigns a variable and no later solved group does,
/// the merged solution keeps that group's value.
pub proof fn lemma_merge_later_wins<T>(
    results: Seq<Option<Map<Seq<char>, T>>>,
    j: int,
    n: Seq<char>,
)
    requires
        0 <= j < results.len(),
        assigns(results[j], n),
        forall|k: int|
            j < k < results.len() ==> !assigns(#[trigger] results[k], n),
    ensures
        merge_all(results).contains_key(n),
        merge_all(results)[n] == results[j]->0[n],
    decreases results.len(),
{
    let init = results.drop_last();
    if j < results.len() - 1 {
        assert forall|k: int| j < k < init.len() implies !assigns(#[trigger] init[k], n) by {
            assert(init[k] == results[k]);
        }
        assert(init[j] == results[j]);
        lemma_merge_later_wins(init, j, n);
        assert(results[results.len() - 1] == results.last());
    }
}

/// A group that was not solved leaves the merged solution as it would be
/// without that group.
pub proof fn lemma_unsolved_group_ignored<T>(results: Seq<Option<Map<Seq<char>, T>>>, i: int)
    requires
        0 <= i < results.len(),
        results[i] is None,
    ensures
        merge_all(results) == merge_all(results.remove(i)),
    decreases results.len(),
{
    if i == results.len() - 1 {
        assert(results.remove(i) =~= results.drop_last());
    } else {
        let init = results.drop_last();
        assert(results.remove(i).drop_last() =~= init.remove(i));
        assert(results.remove(i).last() == results.last());
        lemma_unsolved_group_ignored(init, i);
    }
}

} // verus!
