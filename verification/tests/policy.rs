use rawrr::config::{Config, EnvVars};
use rawrr::docker::Container;
use rawrr::name_map::NameMap;
use rawrr::policy::{
    dry_run_report, get_container_policy, policy_from_value, service_name, ContainerPolicy,
};

fn config() -> Config {
    Config::from_vars(&EnvVars::default()).unwrap()
}

fn labels(pairs: &[(&str, &str)]) -> NameMap<String> {
    let mut map = NameMap::new();
    for (name, value) in pairs {
        map.insert(name.to_string(), value.to_string());
    }
    map
}

fn container(id: &str, names: &[&str], pairs: &[(&str, &str)]) -> Container {
    Container {
        id: id.to_string(),
        names: names.iter().map(|n| n.to_string()).collect(),
        image: "nginx:latest".to_string(),
        image_id: String::new(),
        labels: labels(pairs),
    }
}

#[test]
fn values_denote_policies() {
    assert_eq!(policy_from_value("ignore"), Some(ContainerPolicy::Ignore));
    assert_eq!(policy_from_value("false"), Some(ContainerPolicy::Ignore));
    assert_eq!(policy_from_value("off"), Some(ContainerPolicy::Ignore));
    assert_eq!(policy_from_value("notify"), Some(ContainerPolicy::Notify));
    assert_eq!(policy_from_value("update"), Some(ContainerPolicy::Update));
    assert_eq!(policy_from_value("true"), None);
    assert_eq!(policy_from_value(""), None);
    assert_eq!(policy_from_value("Update"), None);
}

#[test]
fn labels_are_read_in_any_case() {
    let config = config();
    let policy = |value: &str| get_container_policy(&config, &labels(&[("rawrr.policy", value)]));
    assert_eq!(policy("Update"), Some(ContainerPolicy::Update));
    assert_eq!(policy("NOTIFY"), Some(ContainerPolicy::Notify));
    assert_eq!(policy("oFF"), Some(ContainerPolicy::Ignore));
    assert_eq!(policy(" update"), None);
    assert_eq!(policy("updaté"), None);
    assert_eq!(get_container_policy(&config, &labels(&[])), None);
    assert_eq!(get_container_policy(&config, &labels(&[("other", "update")])), None);
}

#[test]
fn the_label_can_be_chosen() {
    let mut config = config();
    config.label_policy = "watch".to_string();
    let both = labels(&[("rawrr.policy", "ignore"), ("watch", "notify")]);
    assert_eq!(get_container_policy(&config, &both), Some(ContainerPolicy::Notify));
}

#[test]
fn labels_choose_a_policy_by_the_value_true() {
    let config = config();
    let policy = |pairs: &[(&str, &str)]| get_container_policy(&config, &labels(pairs));
    assert_eq!(policy(&[("rawrr.ignore", "true")]), Some(ContainerPolicy::Ignore));
    assert_eq!(policy(&[("rawrr.notify", "true")]), Some(ContainerPolicy::Notify));
    assert_eq!(policy(&[("rawrr.update", "true")]), Some(ContainerPolicy::Update));
    assert_eq!(policy(&[("rawrr.update", "false")]), None);
    assert_eq!(policy(&[("rawrr.update", "")]), None);
    // The most cautious counts.
    assert_eq!(
        policy(&[("rawrr.update", "true"), ("rawrr.notify", "true")]),
        Some(ContainerPolicy::Notify)
    );
    assert_eq!(
        policy(&[("rawrr.update", "true"), ("rawrr.ignore", "true")]),
        Some(ContainerPolicy::Ignore)
    );
    assert_eq!(
        policy(&[("rawrr.ignore", "no"), ("rawrr.update", "true")]),
        Some(ContainerPolicy::Update)
    );
    // The policy label counts before the others.
    assert_eq!(
        policy(&[("rawrr.policy", "notify"), ("rawrr.ignore", "true")]),
        Some(ContainerPolicy::Notify)
    );
    assert_eq!(policy(&[("rawrr.policy", "maybe"), ("rawrr.update", "true")]), None);
}

#[test]
fn the_labels_that_choose_a_policy_can_be_chosen() {
    let mut config = config();
    config.label_update = "auto".to_string();
    assert_eq!(
        get_container_policy(&config, &labels(&[("auto", "true")])),
        Some(ContainerPolicy::Update)
    );
    assert_eq!(get_container_policy(&config, &labels(&[("rawrr.update", "true")])), None);
}

#[test]
fn names_of_services() {
    assert_eq!(service_name(&container("id", &["/web", "/other"], &[])), "web");
    assert_eq!(service_name(&container("id", &["//a/b"], &[])), "a/b");
    assert_eq!(service_name(&container("/id", &[], &[])), "id");
}

#[test]
fn dry_runs_report_every_container() {
    let containers = vec![
        container("1", &["/web"], &[("rawrr.policy", "Update")]),
        container("2", &["/db"], &[("rawrr.policy", "off")]),
        container("3", &["/cache"], &[]),
        container("4", &[], &[("rawrr.policy", "notify")]),
        container("5", &["/odd"], &[("rawrr.policy", "maybe")]),
    ];
    let lines = dry_run_report(&config(), &containers);
    let found: Vec<(&str, &str, &str)> = lines
        .iter()
        .map(|l| (l.service_name.as_str(), l.label.as_str(), l.resolved.as_str()))
        .collect();
    assert_eq!(
        found,
        vec![
            ("web", "Update", "update"),
            ("db", "off", "ignore"),
            ("cache", "(none)", "(skipped — no recognised policy)"),
            ("4", "notify", "notify"),
            ("odd", "maybe", "(skipped — no recognised policy)"),
        ]
    );
    assert!(lines.iter().all(|l| l.image == "nginx:latest"));
}
