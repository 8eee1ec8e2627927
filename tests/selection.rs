use juju_bundle::deploy::{app_index, select_bundle, selected_indices};
use juju_bundle::model::{Application, Bundle, BundleError};
use juju_bundle::select::{app_subset, filter_relations, relation_survives};
use juju_bundle::text::{endpoint_names, is_relative};

fn s(x: &str) -> String {
    x.to_string()
}

fn app(charm: Option<&str>, source: Option<&str>) -> Application {
    Application {
        charm: charm.map(s),
        source: source.map(s),
        resources: Vec::new(),
    }
}

fn apps() -> Vec<(String, Application)> {
    vec![
        (s("db"), app(Some("cs:postgresql"), None)),
        (s("web"), app(None, Some("./web"))),
        (s("cache"), app(Some("cs:redis"), Some("redis"))),
    ]
}

#[test]
fn empty_request_selects_every_application() {
    let names = app_subset(&apps(), &Vec::new()).ok().unwrap();
    assert_eq!(names, vec![s("db"), s("web"), s("cache")]);
}

#[test]
fn request_selects_exactly_the_named_applications() {
    let names = app_subset(&apps(), &vec![s("cache"), s("db")]).ok().unwrap();
    assert_eq!(names, vec![s("db"), s("cache")]);
}

#[test]
fn unknown_application_is_a_lookup_error() {
    match app_subset(&apps(), &vec![s("db"), s("queue"), s("nope")]) {
        Err(BundleError::UnknownApplication(n)) => assert_eq!(n, "queue"),
        _ => panic!("expected a lookup error"),
    }
}

#[test]
fn relation_with_interface_survives_when_both_selected() {
    let rel = vec![s("db"), s("web:db")];
    assert!(relation_survives(&rel, &vec![s("db"), s("web")]));
}

#[test]
fn relation_dropped_when_one_side_excluded() {
    let rel = vec![s("db"), s("web:db")];
    assert!(!relation_survives(&rel, &vec![s("db")]));
    let kept = filter_relations(&vec![rel], &vec![s("db")]);
    assert!(kept.is_empty());
}

#[test]
fn filter_keeps_order_of_surviving_relations() {
    let rels = vec![
        vec![s("db:pg"), s("web:db")],
        vec![s("cache"), s("web")],
        vec![s("db"), s("cache:redis")],
    ];
    let kept = filter_relations(&rels, &vec![s("db"), s("web")]);
    assert_eq!(kept, vec![vec![s("db:pg"), s("web:db")]]);
}

#[test]
fn endpoint_suffix_is_stripped_at_first_colon() {
    assert!(endpoint_names(&s("web:db:x"), &s("web")));
    assert!(endpoint_names(&s("web"), &s("web")));
    assert!(!endpoint_names(&s("webapp:db"), &s("web")));
    assert!(!endpoint_names(&s("we:db"), &s("web")));
    assert!(endpoint_names(&s(":db"), &s("")));
}

#[test]
fn relative_source_starts_with_dot() {
    assert!(is_relative(&s("./charms/web")));
    assert!(is_relative(&s("../web")));
    assert!(!is_relative(&s("web")));
    assert!(!is_relative(&s("")));
}

#[test]
fn select_bundle_filters_relations_by_selection() {
    let bundle = Bundle {
        applications: apps(),
        relations: vec![vec![s("db"), s("web:db")], vec![s("cache"), s("web")]],
    };
    let sel = select_bundle(&bundle, &vec![s("web"), s("cache")]).ok().unwrap();
    assert_eq!(sel.names, vec![s("web"), s("cache")]);
    assert_eq!(sel.relations, vec![vec![s("cache"), s("web")]]);
    let all = select_bundle(&bundle, &Vec::new()).ok().unwrap();
    assert_eq!(all.relations.len(), 2);
    assert!(select_bundle(&bundle, &vec![s("x")]).is_err());
}

#[test]
fn app_index_finds_by_name() {
    assert_eq!(app_index(&apps(), &s("web")), Some(1));
    assert_eq!(app_index(&apps(), &s("nope")), None);
}

#[test]
fn selected_indices_follow_names() {
    let idx = selected_indices(&apps(), &vec![s("cache"), s("db")]).ok().unwrap();
    assert_eq!(idx, vec![2, 0]);
    assert!(matches!(
        selected_indices(&apps(), &vec![s("db"), s("zzz")]),
        Err(BundleError::UnknownApplication(n)) if n == "zzz"
    ));
}
