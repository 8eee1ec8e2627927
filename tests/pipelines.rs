use juju_bundle::deploy::{deploy_steps, DeployStep};
use juju_bundle::fanout::{join_outcomes, succeeded_names};
use juju_bundle::model::{Application, Bundle, BundleError};
use juju_bundle::promote::{bundle_reference, promotion_plan, promotion_targets, Promotion};
use juju_bundle::publish::{
    check_publish_flags, edge_channel, find_revision, pin_revisions, publish_candidates,
    publish_plan, publish_steps, PublishStep,
};
use juju_bundle::resolve::SourceLocation;

fn s(x: &str) -> String {
    x.to_string()
}

fn app(charm: Option<&str>, source: Option<&str>) -> Application {
    Application { charm: charm.map(s), source: source.map(s), resources: Vec::new() }
}

#[test]
fn publish_only_apps_with_charm_and_source() {
    let apps = vec![
        (s("only_charm"), app(Some("cs:a"), None)),
        (s("only_source"), app(None, Some("./b"))),
        (s("both"), app(Some("cs:c"), Some("./c"))),
    ];
    assert_eq!(publish_candidates(&apps), vec![s("both")]);
}

#[test]
fn prune_without_serial_is_refused_before_any_work() {
    assert!(matches!(check_publish_flags(true, false), Err(BundleError::PruneRequiresSerial)));
    assert!(check_publish_flags(true, true).is_ok());
    assert!(check_publish_flags(false, false).is_ok());
    let apps = vec![(s("both"), app(Some("cs:c"), Some("./c")))];
    assert!(matches!(publish_plan(&apps, true, false), Err(BundleError::PruneRequiresSerial)));
}

#[test]
fn publish_steps_build_push_release_prune() {
    let steps = publish_steps(&s("./c"), &s("cs:~me/c"), true);
    assert_eq!(
        steps,
        vec![
            PublishStep::Build(SourceLocation::Relative(s("./c"))),
            PublishStep::Push(s("cs:~me/c")),
            PublishStep::Release(s("edge")),
            PublishStep::Prune,
        ]
    );
    assert_eq!(publish_steps(&s("c"), &s("cs:c"), false).len(), 3);
    assert_eq!(edge_channel(), "edge");
}

#[test]
fn publish_plan_covers_eligible_apps() {
    let apps = vec![
        (s("a"), app(Some("cs:a"), Some("a"))),
        (s("b"), app(Some("cs:b"), None)),
        (s("c"), app(Some("cs:c"), Some("./c"))),
    ];
    let plan = publish_plan(&apps, false, false).ok().unwrap();
    assert_eq!(plan.len(), 2);
    assert_eq!(plan[0].0, "a");
    assert_eq!(plan[1].0, "c");
    assert_eq!(plan[1].1[0], PublishStep::Build(SourceLocation::Relative(s("./c"))));
}

#[test]
fn pinning_revisions_leaves_the_loaded_bundle_alone() {
    let bundle = Bundle {
        applications: vec![
            (s("web"), app(Some("cs:web"), Some("./web"))),
            (s("db"), app(Some("cs:postgresql"), None)),
        ],
        relations: vec![vec![s("web"), s("db")]],
    };
    let revs = vec![(s("web"), s("cs:~me/web-7"))];
    let pinned = pin_revisions(&bundle, &revs);
    assert_eq!(pinned.applications[0].1.charm, Some(s("cs:~me/web-7")));
    assert_eq!(pinned.applications[1].1.charm, Some(s("cs:postgresql")));
    assert_eq!(pinned.relations, bundle.relations);
    assert_eq!(bundle.applications[0].1.charm, Some(s("cs:web")));
    assert_eq!(find_revision(&revs, &s("db")), None);
}

#[test]
fn promotion_skips_excluded_and_sourceless() {
    let apps = vec![
        (s("web"), app(Some("cs:web"), Some("./web"))),
        (s("db"), app(Some("cs:db"), Some("./db"))),
        (s("ext"), app(Some("cs:ext"), None)),
    ];
    assert_eq!(promotion_targets(&apps, &vec![s("web")]), vec![s("db")]);
    assert_eq!(promotion_targets(&apps, &vec![]), vec![s("web"), s("db")]);
}

#[test]
fn promotion_plan_promotes_bundle_last() {
    let apps = vec![
        (s("web"), app(Some("cs:web"), Some("./web"))),
        (s("db"), app(Some("cs:db"), Some("./db"))),
    ];
    let plan = promotion_plan(&apps, &vec![s("web")], &s("cs:~me/bundle/kf"), &s("12"));
    assert_eq!(
        plan,
        vec![Promotion::Charm(s("db")), Promotion::Bundle(s("cs:~me/bundle/kf-12"))]
    );
    assert_eq!(bundle_reference(&s("b"), &s("3")), "b-3");
}

#[test]
fn join_has_one_entry_per_task() {
    let outcomes: Vec<(String, Result<u32, BundleError>)> =
        vec![(s("c"), Ok(3)), (s("a"), Ok(1)), (s("b"), Ok(2))];
    let joined = join_outcomes(outcomes).ok().unwrap();
    assert_eq!(joined, vec![(s("c"), 3), (s("a"), 1), (s("b"), 2)]);
    let empty: Vec<(String, Result<u32, BundleError>)> = vec![];
    assert_eq!(join_outcomes(empty).ok().unwrap(), vec![]);
}

#[test]
fn failed_task_fails_join_without_undoing_others() {
    let outcomes: Vec<(String, Result<u32, BundleError>)> = vec![
        (s("a"), Ok(1)),
        (s("b"), Err(BundleError::CommandFailed(s("build of b")))),
    ];
    assert_eq!(succeeded_names(&outcomes), vec![s("a")]);
    match join_outcomes(outcomes) {
        Err(BundleError::CommandFailed(m)) => assert_eq!(m, "build of b"),
        _ => panic!("expected the failure"),
    }
}

#[test]
fn deploy_steps_sequences() {
    assert_eq!(deploy_steps(true, true, 60), vec![DeployStep::UpgradeCharms]);
    assert_eq!(
        deploy_steps(false, true, 60),
        vec![DeployStep::Save, DeployStep::Remove, DeployStep::Wait(60), DeployStep::Deploy]
    );
    assert_eq!(deploy_steps(false, false, 0), vec![DeployStep::Save, DeployStep::Deploy]);
}

#[test]
fn publish_plan_entries_match_their_applications() {
    let apps = vec![(s("a"), app(Some("cs:a"), Some("a")))];
    let plan = publish_plan(&apps, true, true).ok().unwrap();
    assert_eq!(
        plan,
        vec![(
            s("a"),
            vec![
                PublishStep::Build(SourceLocation::Named(s("a"))),
                PublishStep::Push(s("cs:a")),
                PublishStep::Release(s("edge")),
                PublishStep::Prune,
            ]
        )]
    );
}
