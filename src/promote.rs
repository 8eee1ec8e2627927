//! The promotion pipeline: moving published charms, then the bundle, from
//! one channel to another.

use vstd::prelude::*;
use vstd::string::StringExecFns;
use crate::model::{contains_name, key_views, views, Application};

verus! {

/// Whether an application takes part in promotion: it is built from source
/// here (else it is managed elsewhere) and is not excluded.
pub open spec fn promotes(name: Seq<char>, app: Application, excluded: Seq<Seq<char>>) -> bool {
    app.source is Some && !excluded.contains(name)
}

/// The names of the applications to promote, in bundle order.
pub open spec fn promoted(apps: Seq<(String, Application)>, excluded: Seq<Seq<char>>) -> Seq<
    Seq<char>,
>
    decreases apps.len(),
{
    if apps.len() == 0 {
        Seq::empty()
    } else {
        let rest = promoted(apps.drop_last(), excluded);
        if promotes(apps.last().0@, apps.last().1, excluded) {
            rest.push(apps.last().0@)
        } else {
            rest
        }
    }
}

/// The applications whose charms are promoted, in bundle order.
pub fn promotion_targets(apps: &Vec<(String, Application)>, excluded: &Vec<String>) -> (r: Vec<
    String,
>)
    ensures
        views(r@) == promoted(apps@, views(excluded@)),
{
    let mut out: Vec<String> = Vec::new();
    let mut i: usize = 0;
    while i < apps.len()
        invariant
            i <= apps@.len(),
            views(out@) == promoted(apps@.take(i as int), views(excluded@)),
        decreases apps@.len() - i,
    {
        assert(apps@.take(i as int + 1).drop_last() =~= apps@.take(i as int));
        if apps[i].1.source.is_some() && !contains_name(excluded, &apps[i].0) {
            out.push(apps[i].0.clone());
        }
        i = i + 1;
        assert(views(out@) =~= promoted(apps@.take(i as int), views(excluded@)));
    }
    assert(apps@.take(apps@.len() as int) =~= apps@);
    out
}

/// An application is promoted exactly when it has a source and is not
/// excluded: one without a source is never promoted, excluded or not.
pub proof fn lemma_promotion_rule(apps: Seq<(String, Application)>, excluded: Seq<Seq<char>>)
    requires
        key_views(apps).no_duplicates(),
    ensures
        forall|i: int|
            0 <= i < apps.len() ==> (promoted(apps, excluded).contains((#[trigger] apps[i]).0@)
                <==> promotes(apps[i].0@, apps[i].1, excluded)),
    decreases apps.len(),
{
    if apps.len() > 0 {
        let init = apps.drop_last();
        assert(key_views(init) =~= key_views(apps).drop_last());
        lemma_promotion_rule(init, excluded);
        lemma_promoted_names(init, excluded);
        let rest = promoted(init, excluded);
        let last = apps.last();
        assert forall|i: int| 0 <= i < apps.len() implies (promoted(apps, excluded).contains(
            (#[trigger] apps[i]).0@,
        ) <==> promotes(apps[i].0@, apps[i].1, excluded)) by {
            if i < apps.len() - 1 {
                assert(init[i] == apps[i]);
                assert(key_views(apps)[i] != key_views(apps)[apps.len() - 1]);
                if promotes(last.0@, last.1, excluded) {
                    if promoted(apps, excluded).contains(apps[i].0@) {
                        let w = choose|w: int| 0 <= w < promoted(apps, excluded).len()
                            && promoted(apps, excluded)[w] == apps[i].0@;
                        if w < rest.len() {
                            assert(rest[w] == apps[i].0@);
                        }
                    }
                    if rest.contains(apps[i].0@) {
                        let w = choose|w: int| 0 <= w < rest.len() && rest[w] == apps[i].0@;
                        assert(promoted(apps, excluded)[w] == apps[i].0@);
                    }
                }
            } else {
                if promotes(last.0@, last.1, excluded) {
                    assert(promoted(apps, excluded)[rest.len() as int] == last.0@);
                } else if rest.contains(last.0@) {
                    let w = choose|w: int| 0 <= w < rest.len() && rest[w] == last.0@;
                    let j = choose|j: int| 0 <= j < init.len() && init[j].0@ == rest[w];
                    assert(key_views(apps)[j] == init[j].0@);
                    assert(key_views(apps)[apps.len() - 1] == last.0@);
                }
            }
        }
    }
}

/// Every promoted name is the name of an application.
proof fn lemma_promoted_names(apps: Seq<(String, Application)>, excluded: Seq<Seq<char>>)
    ensures
        forall|w: int|
            0 <= w < promoted(apps, excluded).len() ==> exists|j: int|
                0 <= j < apps.len() && apps[j].0@ == #[trigger] promoted(apps, excluded)[w],
    decreases apps.len(),
{
    if apps.len() > 0 {
        let init = apps.drop_last();
        lemma_promoted_names(init, excluded);
        assert forall|w: int| 0 <= w < promoted(apps, excluded).len() implies exists|j: int|
            0 <= j < apps.len() && apps[j].0@ == #[trigger] promoted(apps, excluded)[w] by {
            let rest = promoted(init, excluded);
            if w < rest.len() {
                assert(promoted(apps, excluded)[w] == rest[w]);
                let j = choose|j: int| 0 <= j < init.len() && init[j].0@ == #[trigger] rest[w];
                assert(apps[j] == init[j]);
            } else {
                assert(apps[apps.len() - 1] == apps.last());
            }
        }
    }
}

/// How the bundle is known to the store at a revision: `<name>-<revision>`.
pub open spec fn reference_spec(name: Seq<char>, revision: Seq<char>) -> Seq<char> {
    name + seq!['-'] + revision
}

/// The store reference of the bundle at a revision.
pub fn bundle_reference(name: &String, revision: &String) -> (r: String)
    ensures
        r@ == reference_spec(name@, revision@),
{
    proof {
        reveal_strlit("-");
    }
    name.clone().concat("-").concat(revision.as_str())
}

/// One promotion, from the source channel to the target channel.
#[derive(PartialEq, Eq, Debug)]
pub enum Promotion {
    /// Promote this application's charm.
    Charm(String),
    /// Promote the bundle under this store reference.
    Bundle(String),
}

/// The promotions in the order they run: every targeted charm, then the
/// bundle, last, so that it only moves once all its charms have.
pub fn promotion_plan(
    apps: &Vec<(String, Application)>,
    excluded: &Vec<String>,
    name: &String,
    revision: &String,
) -> (r: Vec<Promotion>)
    ensures
        r@.len() == promoted(apps@, views(excluded@)).len() + 1,
        forall|i: int|
            0 <= i < r@.len() - 1 ==> (#[trigger] r@[i]) is Charm && (r@[i]->Charm_0)@ == promoted(
                apps@,
                views(excluded@),
            )[i],
        r@.last() is Bundle,
        (r@.last()->Bundle_0)@ == reference_spec(name@, revision@),
{
    let targets = promotion_targets(apps, excluded);
    let mut plan: Vec<Promotion> = Vec::new();
    let mut i: usize = 0;
    while i < targets.len()
        invariant
            i <= targets@.len(),
            plan@.len() == i,
            forall|j: int| 0 <= j < i ==> (#[trigger] plan@[j]) == Promotion::Charm(targets@[j]),
        decreases targets@.len() - i,
    {
        plan.push(Promotion::Charm(targets[i].clone()));
        i = i + 1;
    }
    plan.push(Promotion::Bundle(bundle_reference(name, revision)));
    assert forall|j: int| 0 <= j < plan@.len() - 1 implies (#[trigger] plan@[j]) is Charm && (
    plan@[j]->Charm_0)@ == promoted(apps@, views(excluded@))[j] by {
        assert(views(targets@)[j] == targets@[j]@);
    }
    plan
}

} // verus!
