//! The publish pipeline: which applications are published, the steps taken
//! for each, and the bundle copy that pins the published revisions.

use vstd::prelude::*;
use crate::model::{
    copy_entries, copy_opt, copy_strings, key_views, keys_unique, text_of, Application, Bundle,
    BundleError,
};
use crate::resolve::{location_spec, source_location, SourceLocation};

verus! {

/// The channel that freshly published charms and bundles are released to.
pub open spec fn edge_spec() -> Seq<char> {
    seq!['e', 'd', 'g', 'e']
}

/// The name of the default release channel.
pub fn edge_channel() -> (r: String)
    ensures
        r@ == edge_spec(),
{
    proof {
        reveal_strlit("edge");
    }
    text_of("edge")
}

/// Pruning between charms only makes sense when they are built one at a time.
pub fn check_publish_flags(prune: bool, serial: bool) -> (r: Result<(), BundleError>)
    ensures
        r is Err <==> (prune && !serial),
        r is Err ==> r->Err_0 is PruneRequiresSerial,
{
    if prune && !serial {
        Err(BundleError::PruneRequiresSerial)
    } else {
        Ok(())
    }
}

/// An application is published when it has both a charm reference (where
/// the store keeps it) and a source (what gets built).
pub open spec fn publishable(app: Application) -> bool {
    app.charm is Some && app.source is Some
}

/// The names of the publishable applications, in bundle order.
pub open spec fn publishable_names(apps: Seq<(String, Application)>) -> Seq<Seq<char>>
    decreases apps.len(),
{
    if apps.len() == 0 {
        Seq::empty()
    } else {
        let rest = publishable_names(apps.drop_last());
        if publishable(apps.last().1) {
            rest.push(apps.last().0@)
        } else {
            rest
        }
    }
}

/// The applications to publish; those with only one of charm and source are
/// left out, which is not an error.
pub fn publish_candidates(apps: &Vec<(String, Application)>) -> (r: Vec<String>)
    ensures
        r@.map_values(|s: String| s@) == publishable_names(apps@),
{
    let mut out: Vec<String> = Vec::new();
    let mut i: usize = 0;
    while i < apps.len()
        invariant
            i <= apps@.len(),
            out@.map_values(|s: String| s@) == publishable_names(apps@.take(i as int)),
        decreases apps@.len() - i,
    {
        assert(apps@.take(i as int + 1).drop_last() =~= apps@.take(i as int));
        if apps[i].1.charm.is_some() && apps[i].1.source.is_some() {
            out.push(apps[i].0.clone());
        }
        i = i + 1;
        assert(out@.map_values(|s: String| s@) =~= publishable_names(apps@.take(i as int)));
    }
    assert(apps@.take(apps@.len() as int) =~= apps@);
    out
}

/// Every name among the publishable ones is the name of an application.
proof fn lemma_publishable_from(apps: Seq<(String, Application)>)
    ensures
        forall|w: int|
            0 <= w < publishable_names(apps).len() ==> exists|j: int|
                0 <= j < apps.len() && apps[j].0@ == #[trigger] publishable_names(apps)[w],
    decreases apps.len(),
{
    if apps.len() > 0 {
        let init = apps.drop_last();
        lemma_publishable_from(init);
        assert forall|w: int| 0 <= w < publishable_names(apps).len() implies exists|j: int|
            0 <= j < apps.len() && apps[j].0@ == #[trigger] publishable_names(apps)[w] by {
            let rest = publishable_names(init);
            if w < rest.len() {
                assert(publishable_names(apps)[w] == rest[w]);
                let j = choose|j: int| 0 <= j < init.len() && init[j].0@ == #[trigger] rest[w];
                assert(apps[j] == init[j]);
            } else {
                assert(apps[apps.len() - 1] == apps.last());
            }
        }
    }
}

/// An application of a bundle is published exactly when it has both a charm
/// reference and a source; one with only either is left out.
pub proof fn lemma_publish_eligibility(apps: Seq<(String, Application)>)
    requires
        keys_unique(apps),
    ensures
        forall|i: int|
            0 <= i < apps.len() ==> (publishable_names(apps).contains((#[trigger] apps[i]).0@)
                <==> publishable(apps[i].1)),
    decreases apps.len(),
{
    if apps.len() > 0 {
        let init = apps.drop_last();
        assert(key_views(init) =~= key_views(apps).drop_last());
        lemma_publish_eligibility(init);
        lemma_publishable_from(init);
        let rest = publishable_names(init);
        let last = apps.last();
        let all = publishable_names(apps);
        assert forall|i: int| 0 <= i < apps.len() implies (all.contains((#[trigger] apps[i]).0@)
            <==> publishable(apps[i].1)) by {
            if i < apps.len() - 1 {
                assert(init[i] == apps[i]);
                assert(key_views(apps)[i] != key_views(apps)[apps.len() - 1]);
                if publishable(last.1) {
                    if all.contains(apps[i].0@) {
                        let w = choose|w: int| 0 <= w < all.len() && all[w] == apps[i].0@;
                        if w < rest.len() {
                            assert(rest[w] == apps[i].0@);
                        }
                    }
                    if rest.contains(apps[i].0@) {
                        let w = choose|w: int| 0 <= w < rest.len() && rest[w] == apps[i].0@;
                        assert(all[w] == apps[i].0@);
                    }
                }
            } else {
                if publishable(last.1) {
                    assert(all[rest.len() as int] == last.0@);
                } else if rest.contains(last.0@) {
                    let w = choose|w: int| 0 <= w < rest.len() && rest[w] == last.0@;
                    let j = choose|j: int| 0 <= j < init.len() && init[j].0@ == rest[w];
                    assert(key_views(apps)[j] == init[j].0@);
                    assert(key_views(apps)[apps.len() - 1] == last.0@);
                }
            }
        }
    }
}

/// One step of publishing one charm.
#[derive(PartialEq, Eq, Debug)]
pub enum PublishStep {
    /// Build the charm from the source at this location.
    Build(SourceLocation),
    /// Push the built charm to the store under this reference; this yields a revision.
    Push(String),
    /// Release the pushed revision to this channel.
    Release(String),
    /// Prune the container cache before the next charm.
    Prune,
}

/// The steps that publish one application from its source and charm
/// reference, in order: build, push, release to edge, and a prune when asked for.
pub fn publish_steps(source: &String, charm: &String, prune: bool) -> (r: Vec<PublishStep>)
    ensures
        r@.len() == if prune { 4int } else { 3int },
        r@[0] == PublishStep::Build(location_spec(*source)),
        r@[1] == PublishStep::Push(*charm),
        r@[2] is Release && (r@[2]->Release_0)@ == edge_spec(),
        prune ==> r@[3] == PublishStep::Prune,
{
    let mut steps: Vec<PublishStep> = Vec::new();
    steps.push(PublishStep::Build(source_location(source)));
    steps.push(PublishStep::Push(charm.clone()));
    steps.push(PublishStep::Release(edge_channel()));
    if prune {
        steps.push(PublishStep::Prune);
    }
    steps
}

/// An entry of the publish plan is the work for an application: same name,
/// and the steps that build its source, push to its charm reference and
/// release, with a prune when asked for.
pub open spec fn planned_for(entry: (String, Vec<PublishStep>), app: (String, Application), prune: bool) -> bool {
    &&& publishable(app.1)
    &&& entry.0 == app.0
    &&& entry.1@.len() == if prune { 4int } else { 3int }
    &&& entry.1@[0] == PublishStep::Build(location_spec(app.1.source->Some_0))
    &&& entry.1@[1] == PublishStep::Push(app.1.charm->Some_0)
    &&& entry.1@[2] is Release && (entry.1@[2]->Release_0)@ == edge_spec()
    &&& prune ==> entry.1@[3] == PublishStep::Prune
}

/// The publish work for a bundle: for each publishable application, in
/// bundle order, its name and its steps. The flags are checked first: when
/// they conflict, no step is planned at all.
pub fn publish_plan(apps: &Vec<(String, Application)>, prune: bool, serial: bool) -> (r: Result<
    Vec<(String, Vec<PublishStep>)>,
    BundleError,
>)
    ensures
        r is Err <==> (prune && !serial),
        r is Err ==> r->Err_0 is PruneRequiresSerial,
        r is Ok ==> key_views(r->Ok_0@) == publishable_names(apps@),
        r is Ok ==> forall|k: int|
            0 <= k < r->Ok_0@.len() ==> exists|j: int|
                0 <= j < apps@.len() && planned_for(#[trigger] r->Ok_0@[k], apps@[j], prune),
{
    check_publish_flags(prune, serial)?;
    let mut out: Vec<(String, Vec<PublishStep>)> = Vec::new();
    let mut i: usize = 0;
    while i < apps.len()
        invariant
            i <= apps@.len(),
            key_views(out@) == publishable_names(apps@.take(i as int)),
            forall|k: int|
                0 <= k < out@.len() ==> exists|j: int|
                    0 <= j < i && planned_for(#[trigger] out@[k], apps@[j], prune),
        decreases apps@.len() - i,
    {
        assert(apps@.take(i as int + 1).drop_last() =~= apps@.take(i as int));
        match (&apps[i].1.source, &apps[i].1.charm) {
            (Some(src), Some(charm)) => {
                let steps = publish_steps(src, charm, prune);
                out.push((apps[i].0.clone(), steps));
                assert(planned_for(out@[out@.len() - 1], apps@[i as int], prune));
            },
            _ => {},
        }
        i = i + 1;
        assert(key_views(out@) =~= publishable_names(apps@.take(i as int)));
    }
    assert(apps@.take(apps@.len() as int) =~= apps@);
    Ok(out)
}

/// The first revision published under `name`, if any.
pub open spec fn revision_for(revs: Seq<(String, String)>, name: Seq<char>) -> Option<String>
    decreases revs.len(),
{
    if revs.len() == 0 {
        None
    } else if revs[0].0@ == name {
        Some(revs[0].1)
    } else {
        revision_for(revs.drop_first(), name)
    }
}

/// The revision published under `name`, if any.
pub fn find_revision(revs: &Vec<(String, String)>, name: &String) -> (r: Option<String>)
    ensures
        r == revision_for(revs@, name@),
{
    let mut i: usize = 0;
    assert(revs@.skip(0) =~= revs@);
    while i < revs.len()
        invariant
            i <= revs@.len(),
            revision_for(revs@, name@) == revision_for(revs@.skip(i as int), name@),
        decreases revs@.len() - i,
    {
        assert(revs@.skip(i as int).drop_first() =~= revs@.skip(i as int + 1));
        if revs[i].0 == *name {
            return Some(revs[i].1.clone());
        }
        i = i + 1;
    }
    None
}

/// The copy of a bundle that is published: each application published with
/// a revision names that revision as its charm; all else is kept. The loaded
/// bundle itself is left as it was.
pub fn pin_revisions(bundle: &Bundle, revs: &Vec<(String, String)>) -> (r: Bundle)
    ensures
        bundle.well_formed() ==> r.well_formed(),
        r.applications@.len() == bundle.applications@.len(),
        key_views(r.applications@) == key_views(bundle.applications@),
        forall|i: int|
            0 <= i < bundle.applications@.len() ==> {
                let (n, a) = #[trigger] bundle.applications@[i];
                let p = r.applications@[i].1;
                &&& p.charm == match revision_for(revs@, n@) {
                    Some(rev) => Some(rev),
                    None => a.charm,
                }
                &&& p.source == a.source
                &&& p.resources@ == a.resources@
            },
        r.relations@.map_values(|v: Vec<String>| v@) == bundle.relations@.map_values(
            |v: Vec<String>| v@,
        ),
{
    let mut apps: Vec<(String, Application)> = Vec::new();
    let mut i: usize = 0;
    while i < bundle.applications.len()
        invariant
            i <= bundle.applications@.len(),
            apps@.len() == i,
            forall|j: int|
                0 <= j < i ==> {
                    let (n, a) = #[trigger] bundle.applications@[j];
                    let p = apps@[j].1;
                    &&& apps@[j].0 == n
                    &&& p.charm == match revision_for(revs@, n@) {
                        Some(rev) => Some(rev),
                        None => a.charm,
                    }
                    &&& p.source == a.source
                    &&& p.resources@ == a.resources@
                },
        decreases bundle.applications@.len() - i,
    {
        let name = &bundle.applications[i].0;
        let app = &bundle.applications[i].1;
        let charm = match find_revision(revs, name) {
            Some(rev) => Some(rev),
            None => copy_opt(&app.charm),
        };
        let copy = Application {
            charm,
            source: copy_opt(&app.source),
            resources: copy_entries(&app.resources),
        };
        apps.push((name.clone(), copy));
        i = i + 1;
    }
    assert(key_views(apps@) =~= key_views(bundle.applications@));
    let mut rels: Vec<Vec<String>> = Vec::new();
    let mut k: usize = 0;
    while k < bundle.relations.len()
        invariant
            k <= bundle.relations@.len(),
            rels@.len() == k,
            forall|j: int| 0 <= j < k ==> (#[trigger] rels@[j])@ == bundle.relations@[j]@,
        decreases bundle.relations@.len() - k,
    {
        rels.push(copy_strings(&bundle.relations[k]));
        k = k + 1;
    }
    assert(rels@.map_values(|v: Vec<String>| v@) =~= bundle.relations@.map_values(
        |v: Vec<String>| v@,
    ));
    Bundle { applications: apps, relations: rels }
}

} // verus!
