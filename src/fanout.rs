//! Joining the outcomes of per-application tasks that ran concurrently.

use vstd::prelude::*;
use crate::model::{key_views, keys_unique, BundleError};

verus! {

/// The names of the tasks that succeeded, in dispatch order.
pub open spec fn succeeded<T>(outcomes: Seq<(String, Result<T, BundleError>)>) -> Seq<Seq<char>>
    decreases outcomes.len(),
{
    if outcomes.len() == 0 {
        Seq::empty()
    } else {
        let rest = succeeded(outcomes.drop_last());
        if outcomes.last().1 is Ok {
            rest.push(outcomes.last().0@)
        } else {
            rest
        }
    }
}

/// Every task succeeded.
pub open spec fn all_ok<T>(outcomes: Seq<(String, Result<T, BundleError>)>) -> bool {
    forall|i: int| 0 <= i < outcomes.len() ==> (#[trigger] outcomes[i]).1 is Ok
}

/// Joins the outcomes of all dispatched tasks, once every task has finished.
/// When all succeeded, the result holds exactly one entry per task, under the
/// task's name and in dispatch order; otherwise it is one of the errors met.
pub fn join_outcomes<T>(outcomes: Vec<(String, Result<T, BundleError>)>) -> (r: Result<
    Vec<(String, T)>,
    BundleError,
>)
    ensures
        r is Ok <==> all_ok(outcomes@),
        r is Ok ==> r->Ok_0@.len() == outcomes@.len(),
        r is Ok ==> forall|i: int|
            0 <= i < outcomes@.len() ==> (#[trigger] r->Ok_0@[i]).0 == outcomes@[i].0
                && Ok::<T, BundleError>(r->Ok_0@[i].1) == outcomes@[i].1,
        r is Ok ==> key_views(r->Ok_0@) == key_views(outcomes@),
        r is Err ==> exists|i: int|
            0 <= i < outcomes@.len() && outcomes@[i].1 == Err::<T, BundleError>(r->Err_0),
{
    let ghost orig = outcomes@;
    let total: usize = outcomes.len();
    let mut rest = outcomes;
    let mut out: Vec<(String, T)> = Vec::new();
    let mut i: usize = 0;
    while rest.len() > 0
        invariant
            orig == outcomes@,
            orig.len() == total,
            i + rest@.len() == orig.len(),
            rest@ == orig.skip(i as int),
            out@.len() == i,
            forall|j: int| 0 <= j < i ==> (#[trigger] out@[j]).0 == orig[j].0
                && Ok::<T, BundleError>(out@[j].1) == orig[j].1,
        decreases rest@.len(),
    {
        let (name, res) = rest.remove(0);
        assert(orig[i as int] == (name, res));
        match res {
            Ok(v) => {
                out.push((name, v));
            },
            Err(e) => {
                assert(orig[i as int].1 == Err::<T, BundleError>(e));
                return Err(e);
            },
        }
        i = i + 1;
        assert(rest@ =~= orig.skip(i as int));
    }
    assert(key_views(out@) =~= key_views(orig));
    assert forall|j: int| 0 <= j < orig.len() implies (#[trigger] orig[j]).1 is Ok by {
        assert(Ok::<T, BundleError>(out@[j].1) == orig[j].1);
    }
    Ok(out)
}

/// The names of the tasks that succeeded. Their side effects stand whatever
/// became of the others: nothing is undone.
pub fn succeeded_names<T>(outcomes: &Vec<(String, Result<T, BundleError>)>) -> (r: Vec<String>)
    ensures
        r@.map_values(|s: String| s@) == succeeded(outcomes@),
{
    let mut out: Vec<String> = Vec::new();
    let mut i: usize = 0;
    while i < outcomes.len()
        invariant
            i <= outcomes@.len(),
            out@.map_values(|s: String| s@) == succeeded(outcomes@.take(i as int)),
        decreases outcomes@.len() - i,
    {
        assert(outcomes@.take(i as int + 1).drop_last() =~= outcomes@.take(i as int));
        if outcomes[i].1.is_ok() {
            out.push(outcomes[i].0.clone());
        }
        i = i + 1;
        assert(out@.map_values(|s: String| s@) =~= succeeded(outcomes@.take(i as int)));
    }
    assert(outcomes@.take(outcomes@.len() as int) =~= outcomes@);
    out
}

/// Each name among the succeeded ones is the name of a succeeded task.
proof fn lemma_succeeded_from<T>(outcomes: Seq<(String, Result<T, BundleError>)>, x: int)
    requires
        0 <= x < succeeded(outcomes).len(),
    ensures
        exists|j: int| 0 <= j < outcomes.len() && outcomes[j].0@ == succeeded(outcomes)[x]
            && (#[trigger] outcomes[j]).1 is Ok,
    decreases outcomes.len(),
{
    let rest = succeeded(outcomes.drop_last());
    if x < rest.len() {
        lemma_succeeded_from(outcomes.drop_last(), x);
        let j = choose|j: int| 0 <= j < outcomes.drop_last().len() && outcomes.drop_last()[j].0@
            == rest[x] && (#[trigger] outcomes.drop_last()[j]).1 is Ok;
        assert(outcomes[j] == outcomes.drop_last()[j]);
    } else {
        assert(outcomes[outcomes.len() - 1] == outcomes.last());
    }
}

/// Names of succeeded tasks are unique when task names are, and every task
/// that succeeded is among them.
proof fn lemma_succeeded_unique<T>(outcomes: Seq<(String, Result<T, BundleError>)>)
    requires
        keys_unique(outcomes),
    ensures
        succeeded(outcomes).no_duplicates(),
        forall|a: int| 0 <= a < outcomes.len() && (#[trigger] outcomes[a]).1 is Ok
            ==> succeeded(outcomes).contains(outcomes[a].0@),
    decreases outcomes.len(),
{
    if outcomes.len() > 0 {
        let init = outcomes.drop_last();
        assert(key_views(init) =~= key_views(outcomes).drop_last());
        assert(keys_unique(init));
        lemma_succeeded_unique(init);
        let rest = succeeded(init);
        let last = outcomes.last();
        assert forall|a: int| 0 <= a < outcomes.len() && (#[trigger] outcomes[a]).1 is Ok implies
            succeeded(outcomes).contains(outcomes[a].0@) by {
            if a < outcomes.len() - 1 {
                assert(init[a] == outcomes[a]);
                let w = choose|w: int| 0 <= w < rest.len() && rest[w] == init[a].0@;
                assert(succeeded(outcomes)[w] == rest[w]);
            } else {
                assert(succeeded(outcomes)[rest.len() as int] == last.0@);
            }
        }
        if last.1 is Ok {
            assert forall|x: int, y: int| 0 <= x < y < succeeded(outcomes).len() implies
                succeeded(outcomes)[x] != succeeded(outcomes)[y] by {
                if y == rest.len() {
                    lemma_succeeded_from(init, x);
                    let j = choose|j: int| 0 <= j < init.len() && init[j].0@ == rest[x]
                        && (#[trigger] init[j]).1 is Ok;
                    assert(key_views(outcomes)[j] == init[j].0@);
                    assert(key_views(outcomes)[outcomes.len() - 1] == last.0@);
                }
            }
        }
    }
}

/// No rollback: when one task succeeded and another failed, the join fails,
/// yet the succeeded task's work is reported as done, exactly once.
pub proof fn lemma_no_rollback<T>(outcomes: Seq<(String, Result<T, BundleError>)>, a: int, b: int)
    requires
        keys_unique(outcomes),
        0 <= a < outcomes.len(),
        0 <= b < outcomes.len(),
        outcomes[a].1 is Ok,
        outcomes[b].1 is Err,
    ensures
        !all_ok(outcomes),
        succeeded(outcomes).contains(outcomes[a].0@),
        succeeded(outcomes).no_duplicates(),
{
    lemma_succeeded_unique(outcomes);
}

} // verus!
