//! Sequencing of the deploy operation, and the selection it starts from.

use vstd::prelude::*;
use crate::model::{key_views, views, BundleError, Bundle, Application};
use crate::select::{any_missing, app_subset, filter_relations, selection, surviving};

verus! {

/// One external step of a deploy, run in order; the first failure ends the run.
#[derive(PartialEq, Eq, Structural, Debug, Clone, Copy)]
pub enum DeployStep {
    /// Upgrade the charms of the deployed applications, and stop there.
    UpgradeCharms,
    /// Write the derived bundle to a temporary manifest.
    Save,
    /// Remove the selected applications first.
    Remove,
    /// Wait up to this many seconds for the model to settle.
    Wait(u32),
    /// Deploy the temporary manifest.
    Deploy,
}

/// The steps of a deploy once its charms are resolved.
pub open spec fn deploy_steps_spec(upgrade_charms: bool, recreate: bool, wait: u32) -> Seq<DeployStep> {
    if upgrade_charms {
        seq![DeployStep::UpgradeCharms]
    } else {
        seq![DeployStep::Save] + (if recreate {
            seq![DeployStep::Remove]
        } else {
            Seq::empty()
        }) + (if wait > 0 {
            seq![DeployStep::Wait(wait)]
        } else {
            Seq::empty()
        }) + seq![DeployStep::Deploy]
    }
}

/// Lists the steps of a deploy: only the charm upgrade in that mode; else
/// save, an optional removal, an optional wait, and the deploy itself.
pub fn deploy_steps(upgrade_charms: bool, recreate: bool, wait: u32) -> (r: Vec<DeployStep>)
    ensures
        r@ == deploy_steps_spec(upgrade_charms, recreate, wait),
{
    let mut steps: Vec<DeployStep> = Vec::new();
    if upgrade_charms {
        steps.push(DeployStep::UpgradeCharms);
        assert(steps@ =~= deploy_steps_spec(upgrade_charms, recreate, wait));
        return steps;
    }
    steps.push(DeployStep::Save);
    if recreate {
        steps.push(DeployStep::Remove);
    }
    if wait > 0 {
        steps.push(DeployStep::Wait(wait));
    }
    steps.push(DeployStep::Deploy);
    assert(steps@ =~= deploy_steps_spec(upgrade_charms, recreate, wait));
    steps
}

/// The selected application names and the relations that survive among them.
#[derive(Debug)]
pub struct Selection {
    pub names: Vec<String>,
    pub relations: Vec<Vec<String>>,
}

/// Selects the applications asked for (all of them when none is) and keeps
/// the bundle's relations whose endpoints are all selected.
pub fn select_bundle(bundle: &Bundle, requested: &Vec<String>) -> (r: Result<Selection, BundleError>)
    ensures
        r is Ok <==> !(requested@.len() > 0 && any_missing(
            key_views(bundle.applications@),
            views(requested@),
        )),
        r is Ok ==> views(r->Ok_0.names@) == selection(
            key_views(bundle.applications@),
            views(requested@),
        ),
        r is Ok ==> r->Ok_0.relations@.map_values(|v: Vec<String>| v@) == surviving(
            bundle.relations@.map_values(|v: Vec<String>| v@),
            views(r->Ok_0.names@),
        ),
        r is Err ==> r->Err_0 is UnknownApplication,
{
    let names = app_subset(&bundle.applications, requested)?;
    let relations = filter_relations(&bundle.relations, &names);
    Ok(Selection { names, relations })
}

/// Where `name` stands among the applications, if anywhere.
pub fn app_index(apps: &Vec<(String, Application)>, name: &String) -> (r: Option<usize>)
    ensures
        r is Some <==> key_views(apps@).contains(name@),
        r is Some ==> r->Some_0 < apps@.len() && apps@[r->Some_0 as int].0@ == name@,
{
    let mut i: usize = 0;
    while i < apps.len()
        invariant
            i <= apps@.len(),
            forall|j: int| 0 <= j < i ==> apps@[j].0@ != name@,
        decreases apps@.len() - i,
    {
        if apps[i].0 == *name {
            assert(key_views(apps@)[i as int] == name@);
            return Some(i);
        }
        i = i + 1;
    }
    assert(!key_views(apps@).contains(name@)) by {
        if key_views(apps@).contains(name@) {
            let m = choose|m: int| 0 <= m < key_views(apps@).len() && key_views(apps@)[m] == name@;
            assert(apps@[m].0@ == name@);
        }
    }
    None
}

/// For each name, in order, where its application stands among `apps`.
/// Names the bundle lacks are an error naming the first of them.
pub fn selected_indices(apps: &Vec<(String, Application)>, names: &Vec<String>) -> (r: Result<
    Vec<usize>,
    BundleError,
>)
    ensures
        r is Ok <==> (forall|k: int| 0 <= k < names@.len() ==> key_views(apps@).contains(#[trigger] names@[k]@)),
        r is Ok ==> r->Ok_0@.len() == names@.len(),
        r is Ok ==> forall|k: int|
            0 <= k < names@.len() ==> #[trigger] r->Ok_0@[k] < apps@.len()
                && apps@[r->Ok_0@[k] as int].0@ == names@[k]@,
        r is Err ==> r->Err_0 is UnknownApplication,
{
    let mut out: Vec<usize> = Vec::new();
    let mut k: usize = 0;
    while k < names.len()
        invariant
            k <= names@.len(),
            out@.len() == k,
            forall|m: int| 0 <= m < k ==> key_views(apps@).contains(#[trigger] names@[m]@),
            forall|m: int|
                0 <= m < k ==> #[trigger] out@[m] < apps@.len() && apps@[out@[m] as int].0@ == names@[m]@,
        decreases names@.len() - k,
    {
        match app_index(apps, &names[k]) {
            Some(i) => {
                out.push(i);
            },
            None => {
                return Err(BundleError::UnknownApplication(names[k].clone()));
            },
        }
        k = k + 1;
    }
    Ok(out)
}

} // verus!
