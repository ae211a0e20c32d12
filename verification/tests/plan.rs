use rawrr::plan::{plan_rollout, Step};
use rawrr::policy::ContainerPolicy;
use rawrr::upgrade::PendingUpgrade;

fn upgrade(
    name: &str,
    policy: ContainerPolicy,
    project: Option<&str>,
    depends_on: &[&str],
) -> PendingUpgrade {
    PendingUpgrade {
        service_name: name.to_string(),
        container_id: format!("id-{}", name),
        image: "img".to_string(),
        old_digest: String::new(),
        new_digest: "sha256:new".to_string(),
        policy,
        compose_project: project.map(|p| p.to_string()),
        depends_on: depends_on.iter().map(|n| n.to_string()).collect(),
    }
}

#[test]
fn without_upgrades_there_is_nothing_to_do() {
    assert!(plan_rollout(&vec![]).is_empty());
}

#[test]
fn announced_updates_are_saved() {
    let pending = vec![upgrade("a", ContainerPolicy::Notify, None, &[])];
    assert_eq!(plan_rollout(&pending), vec![Step::Notify(0), Step::Save]);
}

#[test]
fn projects_are_restarted_one_by_one_in_dependency_order() {
    let pending = vec![
        upgrade("web", ContainerPolicy::Update, Some("shop"), &["db"]),
        upgrade("alone", ContainerPolicy::Update, None, &["db"]),
        upgrade("told", ContainerPolicy::Notify, Some("shop"), &[]),
        upgrade("db", ContainerPolicy::Update, Some("shop"), &[]),
        upgrade("other", ContainerPolicy::Update, None, &[]),
    ];
    assert_eq!(
        plan_rollout(&pending),
        vec![
            Step::Notify(0),
            Step::Notify(1),
            Step::Notify(2),
            Step::Notify(3),
            Step::Notify(4),
            Step::Inspect(0),
            Step::Inspect(1),
            Step::Inspect(3),
            Step::Inspect(4),
            Step::Pull(0),
            Step::Pull(1),
            Step::Pull(3),
            Step::Pull(4),
            Step::Stop(0),
            Step::Stop(3),
            Step::Start(3),
            Step::Start(0),
            Step::Stop(4),
            Step::Stop(1),
            Step::Start(1),
            Step::Start(4),
            Step::Save,
        ]
    );
}

#[test]
fn a_project_without_a_name_is_not_the_one_with_an_empty_name() {
    let pending = vec![
        upgrade("a", ContainerPolicy::Update, None, &["b"]),
        upgrade("b", ContainerPolicy::Update, Some(""), &[]),
    ];
    assert_eq!(
        plan_rollout(&pending)[6..],
        [Step::Stop(0), Step::Start(0), Step::Stop(1), Step::Start(1), Step::Save]
    );
}
