use rawrr::name_map::NameMap;
use rawrr::order::sort_by_dependency;
use rawrr::policy::ContainerPolicy;
use rawrr::upgrade::{parse_depends_on, topological_sort, PendingUpgrade};

fn labels(pairs: &[(&str, &str)]) -> NameMap<String> {
    let mut map = NameMap::new();
    for (name, value) in pairs {
        map.insert(name.to_string(), value.to_string());
    }
    map
}

fn upgrade(name: &str, depends_on: &[&str]) -> PendingUpgrade {
    PendingUpgrade {
        service_name: name.to_string(),
        container_id: format!("id-{}", name),
        image: "img".to_string(),
        old_digest: String::new(),
        new_digest: "sha256:new".to_string(),
        policy: ContainerPolicy::Update,
        compose_project: None,
        depends_on: depends_on.iter().map(|n| n.to_string()).collect(),
    }
}

fn order(upgrades: &[PendingUpgrade]) -> Vec<usize> {
    let refs: Vec<&PendingUpgrade> = upgrades.iter().collect();
    topological_sort(&refs)
}

#[test]
fn compose_dependencies_are_read() {
    let compose = "com.docker.compose.depends_on";
    assert_eq!(
        parse_depends_on(&labels(&[(compose, "db:service_started:false,cache:service_healthy:true")])),
        vec!["db", "cache"]
    );
    assert_eq!(parse_depends_on(&labels(&[(compose, "db,,:x, web")])), vec!["db", " web"]);
    assert!(parse_depends_on(&labels(&[(compose, "")])).is_empty());
}

#[test]
fn plain_dependencies_are_read() {
    let plain = "rawrr.depends_on";
    assert_eq!(parse_depends_on(&labels(&[(plain, " db , cache:1 ,, ")])), vec!["db", "cache:1"]);
    assert!(parse_depends_on(&labels(&[])).is_empty());
}

#[test]
fn compose_dependencies_count_before_plain_ones() {
    let both = labels(&[("rawrr.depends_on", "a"), ("com.docker.compose.depends_on", "b:x:y")]);
    assert_eq!(parse_depends_on(&both), vec!["b"]);
    let empty = labels(&[("rawrr.depends_on", "a"), ("com.docker.compose.depends_on", "")]);
    assert!(parse_depends_on(&empty).is_empty());
}

#[test]
fn dependencies_come_first() {
    let all = [upgrade("web", &["db", "cache"]), upgrade("cache", &["db"]), upgrade("db", &[])];
    assert_eq!(order(&all), vec![2, 1, 0]);
}

#[test]
fn independent_services_keep_their_order() {
    let all = [upgrade("c", &[]), upgrade("a", &[]), upgrade("b", &["elsewhere"])];
    assert_eq!(order(&all), vec![0, 1, 2]);
    assert!(order(&[]).is_empty());
}

#[test]
fn released_services_follow_in_breadth() {
    let all = [
        upgrade("a", &["d"]),
        upgrade("b", &["d"]),
        upgrade("c", &["a"]),
        upgrade("d", &[]),
        upgrade("e", &[]),
    ];
    assert_eq!(order(&all), vec![3, 4, 0, 1, 2]);
}

#[test]
fn cycles_come_last() {
    let all = [
        upgrade("a", &["b"]),
        upgrade("b", &["a"]),
        upgrade("c", &["a"]),
        upgrade("d", &[]),
        upgrade("self", &["self"]),
    ];
    assert_eq!(order(&all), vec![3, 0, 1, 2, 4]);
}

#[test]
fn repeated_dependencies_are_counted_as_often_as_named() {
    let all = [upgrade("a", &["b", "b"]), upgrade("b", &[])];
    assert_eq!(order(&all), vec![1, 0]);
}

#[test]
fn of_two_services_under_one_name_the_last_is_meant() {
    let all = [upgrade("x", &[]), upgrade("a", &["x"]), upgrade("b", &[]), upgrade("x", &["b"])];
    assert_eq!(order(&all), vec![0, 2, 3, 1]);
}

#[test]
fn graphs_are_sorted() {
    assert_eq!(sort_by_dependency(&vec![vec![1], vec![2], vec![]]), vec![2, 1, 0]);
    assert_eq!(sort_by_dependency(&vec![vec![1], vec![0], vec![]]), vec![2, 0, 1]);
    assert_eq!(
        sort_by_dependency(&vec![vec![3, 1], vec![], vec![0], vec![]]),
        vec![1, 3, 0, 2]
    );
}
