//! Deciding, per application, whether to deploy its charm reference or build
//! the charm from source, and folding a build's results back in.

use vstd::prelude::*;
use crate::model::{copy_entries, copy_opt, key_views, keys_unique, Application, BundleError};
use crate::text::{is_relative, is_relative_spec};

verus! {

/// What to do with one application's charm.
#[derive(PartialEq, Eq, Structural, Debug, Clone, Copy)]
pub enum Resolution {
    /// Deploy the declared charm reference as it is.
    UseCharm,
    /// Build the charm from its source.
    Build,
    /// Neither a charm reference nor a source is declared.
    Missing,
}

/// The decision table over the build flag and which fields are declared.
pub open spec fn resolution_spec(build: bool, has_charm: bool, has_source: bool) -> Resolution {
    if has_charm && (!build || !has_source) {
        Resolution::UseCharm
    } else if !has_charm && !has_source {
        Resolution::Missing
    } else {
        Resolution::Build
    }
}

/// Applies the decision table.
pub fn resolution(build: bool, has_charm: bool, has_source: bool) -> (r: Resolution)
    ensures
        r == resolution_spec(build, has_charm, has_source),
{
    match (build, has_charm, has_source) {
        (false, true, _) | (_, true, false) => Resolution::UseCharm,
        (_, false, false) => Resolution::Missing,
        (true, _, true) | (_, false, true) => Resolution::Build,
    }
}

/// Where a charm's source is found.
#[derive(PartialEq, Eq, Debug)]
pub enum SourceLocation {
    /// A path relative to the directory of the bundle file.
    Relative(String),
    /// A name under the charm source directory.
    Named(String),
}

/// The location a source locator denotes.
pub open spec fn location_spec(s: String) -> SourceLocation {
    if is_relative_spec(s@) {
        SourceLocation::Relative(s)
    } else {
        SourceLocation::Named(s)
    }
}

/// Classifies a source locator: a leading `.` marks a path relative to the
/// bundle file, anything else names a directory under the charm sources.
pub fn source_location(s: &String) -> (r: SourceLocation)
    ensures
        r == location_spec(*s),
{
    if is_relative(s) {
        SourceLocation::Relative(s.clone())
    } else {
        SourceLocation::Named(s.clone())
    }
}

/// What resolving one application's charm amounts to.
#[derive(PartialEq, Eq, Debug)]
pub enum CharmPlan {
    /// Keep this charm reference.
    UseCharm(String),
    /// Build the charm found at this location.
    Build(SourceLocation),
}

/// The plan for one application, or the error when it declares neither field.
pub fn plan_charm(name: &String, app: &Application, build: bool) -> (r: Result<CharmPlan, BundleError>)
    ensures
        resolution_spec(build, app.charm is Some, app.source is Some) == Resolution::UseCharm
            ==> r == Ok::<CharmPlan, BundleError>(CharmPlan::UseCharm(app.charm->Some_0)),
        resolution_spec(build, app.charm is Some, app.source is Some) == Resolution::Build
            ==> r == Ok::<CharmPlan, BundleError>(CharmPlan::Build(location_spec(app.source->Some_0))),
        resolution_spec(build, app.charm is Some, app.source is Some) == Resolution::Missing
            ==> r == Err::<CharmPlan, BundleError>(BundleError::NoCharmOrSource(*name)),
{
    match resolution(build, app.charm.is_some(), app.source.is_some()) {
        Resolution::UseCharm => match &app.charm {
            Some(c) => Ok(CharmPlan::UseCharm(c.clone())),
            None => Err(BundleError::NoCharmOrSource(name.clone())),
        },
        Resolution::Build => match &app.source {
            Some(s) => Ok(CharmPlan::Build(source_location(s))),
            None => Err(BundleError::NoCharmOrSource(name.clone())),
        },
        Resolution::Missing => Err(BundleError::NoCharmOrSource(name.clone())),
    }
}

/// `entries` after adding each built resource that has an upstream source and
/// whose name is not yet present; the first of equal names wins.
pub open spec fn merged(entries: Seq<(String, String)>, built: Seq<(String, Option<String>)>) -> Seq<
    (String, String),
>
    decreases built.len(),
{
    if built.len() == 0 {
        entries
    } else {
        let m = merged(entries, built.drop_last());
        let b = built.last();
        if b.1 is None || key_views(m).contains(b.0@) {
            m
        } else {
            m.push((b.0, b.1->Some_0))
        }
    }
}

/// Whether `k` is a key of `v`.
pub fn has_key(v: &Vec<(String, String)>, k: &String) -> (r: bool)
    ensures
        r == key_views(v@).contains(k@),
{
    let mut i: usize = 0;
    while i < v.len()
        invariant
            i <= v@.len(),
            forall|j: int| 0 <= j < i ==> v@[j].0@ != k@,
        decreases v@.len() - i,
    {
        if v[i].0 == *k {
            assert(key_views(v@)[i as int] == k@);
            return true;
        }
        i = i + 1;
    }
    assert(!key_views(v@).contains(k@)) by {
        if key_views(v@).contains(k@) {
            let m = choose|m: int| 0 <= m < key_views(v@).len() && key_views(v@)[m] == k@;
            assert(v@[m].0@ == k@);
        }
    }
    false
}

/// Merges a build's declared resources into an application's own: a resource
/// the application already names keeps its declared upstream source.
pub fn merge_resources(entries: &Vec<(String, String)>, built: &Vec<(String, Option<String>)>) -> (r:
    Vec<(String, String)>)
    ensures
        r@ == merged(entries@, built@),
{
    let mut out = copy_entries(entries);
    let mut j: usize = 0;
    while j < built.len()
        invariant
            j <= built@.len(),
            out@ == merged(entries@, built@.take(j as int)),
        decreases built@.len() - j,
    {
        assert(built@.take(j as int + 1).drop_last() =~= built@.take(j as int));
        match &built[j].1 {
            Some(src) => {
                if !has_key(&out, &built[j].0) {
                    out.push((built[j].0.clone(), src.clone()));
                }
            },
            None => {},
        }
        j = j + 1;
    }
    assert(built@.take(built@.len() as int) =~= built@);
    out
}

/// The application as it stands after its charm was built: the charm reference
/// becomes the built charm, and build-declared resources are merged in.
pub fn apply_build(app: &Application, built_charm: String, built: &Vec<(String, Option<String>)>) -> (r:
    Application)
    ensures
        r.charm == Some(built_charm),
        r.source == app.source,
        r.resources@ == merged(app.resources@, built@),
{
    Application {
        charm: Some(built_charm),
        source: copy_opt(&app.source),
        resources: merge_resources(&app.resources, built),
    }
}

/// Explicit declarations win over build-derived ones: merging keeps every
/// declared resource, with its declared upstream source, at its place, adds
/// only names not yet present, and keeps names unique.
pub proof fn lemma_declared_resources_win(
    entries: Seq<(String, String)>,
    built: Seq<(String, Option<String>)>,
)
    requires
        keys_unique(entries),
    ensures
        keys_unique(merged(entries, built)),
        merged(entries, built).len() >= entries.len(),
        forall|i: int| 0 <= i < entries.len() ==> #[trigger] merged(entries, built)[i] == entries[i],
    decreases built.len(),
{
    if built.len() > 0 {
        lemma_declared_resources_win(entries, built.drop_last());
        let m = merged(entries, built.drop_last());
        let b = built.last();
        if !(b.1 is None || key_views(m).contains(b.0@)) {
            let n = m.push((b.0, b.1->Some_0));
            assert(key_views(n) =~= key_views(m).push(b.0@));
            assert forall|x: int, y: int| 0 <= x < y < key_views(n).len() implies key_views(n)[x]
                != key_views(n)[y] by {
                if y == key_views(m).len() {
                    assert(key_views(m)[x] == key_views(n)[x]);
                }
            }
        }
    }
}

} // verus!
