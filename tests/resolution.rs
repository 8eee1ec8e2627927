use juju_bundle::model::{Application, BundleError};
use juju_bundle::resolve::{
    apply_build, merge_resources, plan_charm, resolution, source_location, CharmPlan, Resolution,
    SourceLocation,
};

fn s(x: &str) -> String {
    x.to_string()
}

#[test]
fn decision_table_all_eight_combinations() {
    // (build, charm, source)
    assert_eq!(resolution(false, false, false), Resolution::Missing);
    assert_eq!(resolution(false, false, true), Resolution::Build);
    assert_eq!(resolution(false, true, false), Resolution::UseCharm);
    assert_eq!(resolution(false, true, true), Resolution::UseCharm);
    assert_eq!(resolution(true, false, false), Resolution::Missing);
    assert_eq!(resolution(true, false, true), Resolution::Build);
    assert_eq!(resolution(true, true, false), Resolution::UseCharm);
    assert_eq!(resolution(true, true, true), Resolution::Build);
}

#[test]
fn plan_uses_charm_without_build_flag() {
    let a = Application { charm: Some(s("cs:web-3")), source: Some(s("web")), resources: vec![] };
    match plan_charm(&s("web"), &a, false) {
        Ok(CharmPlan::UseCharm(c)) => assert_eq!(c, "cs:web-3"),
        _ => panic!("expected the charm reference"),
    }
}

#[test]
fn plan_builds_relative_source_with_build_flag() {
    let a = Application { charm: Some(s("cs:web-3")), source: Some(s("./web")), resources: vec![] };
    match plan_charm(&s("web"), &a, true) {
        Ok(CharmPlan::Build(SourceLocation::Relative(p))) => assert_eq!(p, "./web"),
        _ => panic!("expected a relative build"),
    }
}

#[test]
fn plan_builds_named_source_without_charm() {
    let a = Application { charm: None, source: Some(s("web")), resources: vec![] };
    match plan_charm(&s("web"), &a, false) {
        Ok(CharmPlan::Build(SourceLocation::Named(p))) => assert_eq!(p, "web"),
        _ => panic!("expected a named build"),
    }
}

#[test]
fn plan_fails_with_neither_charm_nor_source() {
    let a = Application { charm: None, source: None, resources: vec![] };
    match plan_charm(&s("lonely"), &a, true) {
        Err(BundleError::NoCharmOrSource(n)) => assert_eq!(n, "lonely"),
        _ => panic!("expected a policy error"),
    }
}

#[test]
fn source_location_classifies() {
    assert_eq!(source_location(&s("./a")), SourceLocation::Relative(s("./a")));
    assert_eq!(source_location(&s("a")), SourceLocation::Named(s("a")));
}

#[test]
fn declared_resource_wins_over_built() {
    let declared = vec![(s("X"), s("explicit"))];
    let built = vec![(s("X"), Some(s("built"))), (s("Y"), Some(s("img"))), (s("Z"), None)];
    let merged = merge_resources(&declared, &built);
    assert_eq!(merged, vec![(s("X"), s("explicit")), (s("Y"), s("img"))]);
}

#[test]
fn first_built_resource_of_a_name_wins() {
    let built = vec![(s("Y"), Some(s("one"))), (s("Y"), Some(s("two")))];
    assert_eq!(merge_resources(&vec![], &built), vec![(s("Y"), s("one"))]);
}

#[test]
fn apply_build_sets_charm_and_merges() {
    let a = Application {
        charm: Some(s("cs:web")),
        source: Some(s("./web")),
        resources: vec![(s("X"), s("explicit"))],
    };
    let built = vec![(s("X"), Some(s("built")))];
    let b = apply_build(&a, s("/build/web"), &built);
    assert_eq!(b.charm, Some(s("/build/web")));
    assert_eq!(b.source, Some(s("./web")));
    assert_eq!(b.resources, vec![(s("X"), s("explicit"))]);
}
